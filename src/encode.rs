//! The coverage encoder: sparse hit maps and branch records turned into the
//! array encodings of the wire format.
use std::collections::HashMap;
use vstd::prelude::*;

verus! {

broadcast use vstd::std_specs::hash::group_hash_axioms;

/// One observed branch point.
#[derive(Clone, Copy, Debug, PartialEq, Eq)]
pub struct BranchData {
    /// 1-based source line of the branch.
    pub line_number: usize,
    /// Identifier of the enclosing block.
    pub block_name: usize,
    /// Index of this branch within the block.
    pub branch_number: usize,
    /// How often the branch was taken.
    pub hits: usize,
}

/// The four integers that stand for one branch record, in wire order.
pub open spec fn branch_words(b: BranchData) -> Seq<usize> {
    seq![b.line_number, b.block_name, b.branch_number, b.hits]
}

/// The flat branch array: the records' words one after another, so that
/// slot `i` is word `i % 4` of record `i / 4`.
pub open spec fn expanded_branches(bs: Seq<BranchData>) -> Seq<usize> {
    Seq::new(4 * bs.len(), |i: int| branch_words(bs[i / 4])[i % 4])
}

/// The coverage slot of 0-based index `i`: the hits of line `i + 1` if the
/// map holds that line, else not coverable.
pub open spec fn line_slot(hits: Map<usize, usize>, i: int) -> Option<usize> {
    let line = (i + 1) as usize;
    if hits.contains_key(line) {
        Some(hits[line])
    } else {
        None
    }
}

/// The dense coverage array of a file of `line_count` lines.
pub open spec fn expanded_lines(hits: Map<usize, usize>, line_count: nat) -> Seq<Option<usize>> {
    Seq::new(line_count, |i: int| line_slot(hits, i))
}

/// Expands a line-to-hits map into one slot per line `1..=line_count`;
/// lines without an entry are not coverable, keys beyond the file are ignored.
pub fn expand_lines(lines: &HashMap<usize, usize>, line_count: usize) -> (r: Vec<Option<usize>>)
    ensures
        r@ == expanded_lines(lines@, line_count as nat),
{
    let mut out: Vec<Option<usize>> = Vec::new();
    let mut i: usize = 0;
    while i < line_count
        invariant
            i <= line_count,
            out@ == expanded_lines(lines@, i as nat),
        decreases line_count - i,
    {
        let line: usize = i + 1;
        let slot = match lines.get(&line) {
            Some(h) => Some(*h),
            None => None,
        };
        out.push(slot);
        i = i + 1;
        assert(out@ =~= expanded_lines(lines@, i as nat));
    }
    out
}

/// Flattens branch records into the wire's flat array: line, block, branch
/// and hits of each record, in the order of the records.
pub fn expand_branches(branches: &Vec<BranchData>) -> (r: Vec<usize>)
    ensures
        r@ == expanded_branches(branches@),
{
    let mut out: Vec<usize> = Vec::new();
    let mut k: usize = 0;
    while k < branches.len()
        invariant
            k <= branches@.len(),
            out@ == expanded_branches(branches@.take(k as int)),
        decreases branches@.len() - k,
    {
        let b = branches[k];
        out.push(b.line_number);
        out.push(b.block_name);
        out.push(b.branch_number);
        out.push(b.hits);
        k = k + 1;
        assert(out@ =~= expanded_branches(branches@.take(k as int)));
    }
    assert(branches@.take(k as int) =~= branches@);
    out
}

/// The coverage array has exactly one slot per line, and slot `i` holds the
/// hits of line `i + 1` if the map has that line and is not coverable
/// otherwise.
pub proof fn lemma_expanded_lines_slots(hits: Map<usize, usize>, line_count: nat)
    requires
        line_count <= usize::MAX,
    ensures
        expanded_lines(hits, line_count).len() == line_count,
        forall|i: int|
            0 <= i < line_count ==> (#[trigger] expanded_lines(hits, line_count)[i] is Some
                <==> hits.contains_key((i + 1) as usize)),
        forall|i: int|
            0 <= i < line_count && hits.contains_key((i + 1) as usize) ==> #[trigger] expanded_lines(
                hits,
                line_count,
            )[i] == Some(hits[(i + 1) as usize]),
{
}

/// When the hit map has an entry for every line of the file, every slot of
/// the coverage array holds a hit count.
pub proof fn lemma_full_map_all_coverable(hits: Map<usize, usize>, line_count: nat)
    requires
        line_count <= usize::MAX,
        forall|line: usize| 1 <= line <= line_count ==> #[trigger] hits.contains_key(line),
    ensures
        forall|i: int| 0 <= i < line_count ==> #[trigger] expanded_lines(hits, line_count)[i] is Some,
{
    assert forall|i: int| 0 <= i < line_count implies #[trigger] expanded_lines(
        hits,
        line_count,
    )[i] is Some by {
        assert(hits.contains_key((i + 1) as usize));
    }
}

/// The flat branch array has four slots per record, and the window
/// `[4k, 4k + 4)` holds line, block, branch and hits of record `k`.
pub proof fn lemma_expanded_branches_windows(bs: Seq<BranchData>)
    ensures
        expanded_branches(bs).len() == 4 * bs.len(),
        forall|k: int|
            0 <= k < bs.len() ==> #[trigger] expanded_branches(bs).subrange(4 * k, 4 * k + 4)
                == branch_words(bs[k]),
{
    assert forall|k: int| 0 <= k < bs.len() implies #[trigger] expanded_branches(bs).subrange(
        4 * k,
        4 * k + 4,
    ) == branch_words(bs[k]) by {
        assert((4 * k) / 4 == k && (4 * k) % 4 == 0);
        assert((4 * k + 1) / 4 == k && (4 * k + 1) % 4 == 1);
        assert((4 * k + 2) / 4 == k && (4 * k + 2) % 4 == 2);
        assert((4 * k + 3) / 4 == k && (4 * k + 3) % 4 == 3);
        assert(expanded_branches(bs).subrange(4 * k, 4 * k + 4) =~= branch_words(bs[k]));
    }
}

/// No branch records flatten to the empty array.
pub proof fn lemma_expanded_branches_empty()
    ensures
        expanded_branches(Seq::empty()) == Seq::<usize>::empty(),
{
    assert(expanded_branches(Seq::empty()) =~= Seq::<usize>::empty());
}

/// Number of line feeds in `s`.
pub open spec fn count_newlines(s: Seq<char>) -> nat
    decreases s.len(),
{
    if s.len() == 0 {
        0
    } else {
        count_newlines(s.drop_last()) + if s.last() == '\n' {
            1nat
        } else {
            0nat
        }
    }
}

/// Number of lines of a text: one per line feed, and one more for a last
/// line that has no line feed after it.
pub open spec fn line_count(s: Seq<char>) -> nat {
    count_newlines(s) + if s.len() > 0 && s.last() != '\n' {
        1nat
    } else {
        0nat
    }
}

proof fn lemma_count_newlines_bound(s: Seq<char>)
    ensures
        count_newlines(s) <= s.len(),
    decreases s.len(),
{
    if s.len() > 0 {
        lemma_count_newlines_bound(s.drop_last());
    }
}

/// Counts the lines of `content`, a final line without a terminator included.
pub fn count_lines(content: &str) -> (r: usize)
    ensures
        r as nat == line_count(content@),
{
    let len = content.unicode_len();
    let mut newlines: usize = 0;
    let mut last: Option<char> = None;
    for c in it: content.chars()
        invariant
            len as nat == content@.len(),
            it.seq() == content@,
            newlines as nat == count_newlines(content@.take(it.index() as int)),
            it.index() == 0 ==> last is None,
            it.index() > 0 ==> last == Some(content@[it.index() - 1]),
    {
        proof {
            lemma_count_newlines_bound(content@.take(it.index() as int));
            assert(content@.take(it.index() + 1).drop_last() =~= content@.take(it.index() as int));
        }
        if c == '\n' {
            newlines = newlines + 1;
        }
        last = Some(c);
    }
    proof {
        assert(content@.take(content@.len() as int) =~= content@);
        if content@.len() > 0 {
            lemma_count_newlines_bound(content@.drop_last());
        }
    }
    match last {
        Some(c) => if c != '\n' {
            newlines + 1
        } else {
            newlines
        },
        None => newlines,
    }
}

} // verus!
