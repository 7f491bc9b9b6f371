//! The JSON text of the wire format: numbers, arrays and objects framed here,
//! string literals quoted and escaped by serde_json.
use vstd::prelude::*;
use vstd::string::*;

verus! {

#[verifier::external_type_specification]
#[verifier::external_body]
pub struct ExJsonError(serde_json::Error);

/// The JSON string literal that stands for the text `s`, quotes included.
pub uninterp spec fn json_quoted_of(s: Seq<char>) -> Seq<char>;

/// Relies on serde_json::to_string applied to a `str`: the JSON string
/// literal of `s`, quoted and escaped. It always succeeds there: a `str`
/// serializes through `serialize_str`, which escapes into a `Vec<u8>`, and
/// writing to a `Vec` never fails.
#[verifier::external_body]
fn json_string(s: &str) -> (r: Result<String, serde_json::Error>)
    ensures
        r is Ok,
        r matches Ok(t) ==> t@ == json_quoted_of(s@),
{
    serde_json::to_string(s)
}

/// The decimal digit `d`, for `d < 10`.
pub open spec fn digit_char(d: nat) -> char {
    seq!['0', '1', '2', '3', '4', '5', '6', '7', '8', '9'][d as int]
}

/// Decimal notation of `n`, without leading zeros.
pub open spec fn decimal(n: nat) -> Seq<char>
    decreases n,
{
    if n < 10 {
        seq![digit_char(n)]
    } else {
        decimal(n / 10).push(digit_char(n % 10))
    }
}

/// A hit count, or `null` for a line that is not coverable.
pub open spec fn count_text(c: Option<usize>) -> Seq<char> {
    match c {
        Some(n) => decimal(n as nat),
        None => seq!['n', 'u', 'l', 'l'],
    }
}

/// The items, with a comma between each two of them.
pub open spec fn joined(items: Seq<Seq<char>>) -> Seq<char>
    decreases items.len(),
{
    if items.len() == 0 {
        Seq::empty()
    } else if items.len() == 1 {
        items[0]
    } else {
        joined(items.drop_last()) + seq![','] + items.last()
    }
}

/// What stands before an item of a list: nothing before the first, else a comma.
pub open spec fn separator(first: bool) -> Seq<char> {
    if first {
        Seq::empty()
    } else {
        seq![',']
    }
}

/// A JSON array of items already written as JSON.
pub open spec fn array_text(items: Seq<Seq<char>>) -> Seq<char> {
    seq!['['] + joined(items) + seq![']']
}

/// A JSON object member: the key, which needs no escaping, and a value
/// already written as JSON.
pub open spec fn member_text(key: Seq<char>, value: Seq<char>) -> Seq<char> {
    seq!['"'] + key + seq!['"', ':'] + value
}

/// A JSON object of (key, value text) members, in the given order.
pub open spec fn object_text(members: Seq<(Seq<char>, Seq<char>)>) -> Seq<char> {
    seq!['{'] + joined(members.map_values(|m: (Seq<char>, Seq<char>)| member_text(m.0, m.1)))
        + seq!['}']
}

/// Appending an item to a list appends it to the joined text, after a
/// separator unless it is the first.
pub proof fn lemma_joined_push(items: Seq<Seq<char>>, x: Seq<char>)
    ensures
        joined(items.push(x)) == joined(items) + separator(items.len() == 0) + x,
{
    assert(items.push(x).drop_last() =~= items);
    if items.len() == 0 {
        assert(joined(items) + separator(true) + x =~= x);
    }
}

/// Appends the decimal digit `d`.
fn write_digit(out: &mut String, d: usize)
    requires
        d < 10,
    ensures
        final(out)@ == old(out)@.push(digit_char(d as nat)),
{
    let digits = "0123456789";
    proof {
        reveal_strlit("0123456789");
    }
    assert(digits.is_ascii());
    let s = digits.substring_ascii(d, d + 1);
    out.append(s);
    assert(s@ =~= seq![digit_char(d as nat)]);
    assert(final(out)@ =~= old(out)@.push(digit_char(d as nat)));
}

/// Appends `n` in decimal notation.
pub fn write_decimal(out: &mut String, n: usize)
    ensures
        final(out)@ == old(out)@ + decimal(n as nat),
    decreases n,
{
    if n >= 10 {
        write_decimal(out, n / 10);
    }
    write_digit(out, n % 10);
    assert(final(out)@ =~= old(out)@ + decimal(n as nat));
}

/// Appends the JSON string literal of `s`.
pub fn write_string(out: &mut String, s: &str)
    ensures
        final(out)@ == old(out)@ + json_quoted_of(s@),
{
    match json_string(s) {
        Ok(t) => {
            out.append(t.as_str());
        },
        Err(_) => {},
    }
}

/// Appends the opening of an object member: a comma unless it is the first
/// member, then the quoted key and a colon. The value comes next.
pub fn write_key(out: &mut String, first: bool, key: &str)
    ensures
        final(out)@ == old(out)@ + separator(first) + seq!['"'] + key@ + seq!['"', ':'],
{
    proof {
        reveal_strlit(",");
        reveal_strlit("\"");
        reveal_strlit("\":");
    }
    if !first {
        out.append(",");
    }
    out.append("\"");
    out.append(key);
    out.append("\":");
    assert(final(out)@ =~= old(out)@ + separator(first) + seq!['"'] + key@ + seq!['"', ':']);
}

/// Appends a JSON array of integers.
pub fn write_counts(out: &mut String, values: &Vec<usize>)
    ensures
        final(out)@ == old(out)@ + array_text(values@.map_values(|v: usize| decimal(v as nat))),
{
    let ghost start = out@;
    let ghost items = values@.map_values(|v: usize| decimal(v as nat));
    proof {
        reveal_strlit("[");
        reveal_strlit("]");
    }
    out.append("[");
    let mut i: usize = 0;
    while i < values.len()
        invariant
            i <= values@.len(),
            items == values@.map_values(|v: usize| decimal(v as nat)),
            out@ == start + seq!['['] + joined(items.take(i as int)),
        decreases values@.len() - i,
    {
        let ghost before = out@;
        proof {
            reveal_strlit(",");
        }
        if i > 0 {
            out.append(",");
        }
        assert(out@ =~= before + separator(i == 0));
        write_decimal(out, values[i]);
        assert(out@ =~= before + separator(i == 0) + items[i as int]);
        proof {
            lemma_joined_push(items.take(i as int), items[i as int]);
            assert(items.take(i as int).push(items[i as int]) =~= items.take(i + 1));
            assert(items.take(i as int).len() == i);
        }
        i = i + 1;
        assert(out@ =~= start + seq!['['] + joined(items.take(i as int)));
    }
    out.append("]");
    assert(items.take(i as int) =~= items);
    assert(final(out)@ =~= start + array_text(items));
}

/// Appends a JSON array of hit counts, `null` for lines that are not coverable.
pub fn write_coverage(out: &mut String, values: &Vec<Option<usize>>)
    ensures
        final(out)@ == old(out)@ + array_text(values@.map_values(|c: Option<usize>| count_text(c))),
{
    let ghost start = out@;
    let ghost items = values@.map_values(|c: Option<usize>| count_text(c));
    proof {
        reveal_strlit("[");
        reveal_strlit("]");
    }
    out.append("[");
    let mut i: usize = 0;
    while i < values.len()
        invariant
            i <= values@.len(),
            items == values@.map_values(|c: Option<usize>| count_text(c)),
            out@ == start + seq!['['] + joined(items.take(i as int)),
        decreases values@.len() - i,
    {
        let ghost before = out@;
        proof {
            reveal_strlit(",");
            reveal_strlit("null");
        }
        if i > 0 {
            out.append(",");
        }
        assert(out@ =~= before + separator(i == 0));
        match values[i] {
            Some(n) => write_decimal(out, n),
            None => {
                out.append("null");
            },
        }
        assert(out@ =~= before + separator(i == 0) + items[i as int]);
        proof {
            lemma_joined_push(items.take(i as int), items[i as int]);
            assert(items.take(i as int).push(items[i as int]) =~= items.take(i + 1));
            assert(items.take(i as int).len() == i);
        }
        i = i + 1;
        assert(out@ =~= start + seq!['['] + joined(items.take(i as int)));
    }
    out.append("]");
    assert(items.take(i as int) =~= items);
    assert(final(out)@ =~= start + array_text(items));
}

} // verus!
