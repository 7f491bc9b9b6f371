//! The report model: per-file coverage entries, the identity that a report
//! is sent under, and the report's JSON body.
use std::collections::HashMap;
use vstd::prelude::*;
use vstd::string::*;

use crate::encode::{
    count_lines, expand_branches, expand_lines, expanded_branches, expanded_lines, line_count,
    BranchData,
};
use crate::json::{
    array_text, count_text, decimal, joined, json_quoted_of, lemma_joined_push, member_text,
    object_text, separator, write_counts, write_coverage, write_key, write_string,
};

verus! {

/// Lowercase hex notation of the MD5 digest of the bytes of `content`.
pub uninterp spec fn md5_hex_of(content: Seq<char>) -> Seq<char>;

/// A lowercase hexadecimal digit.
pub open spec fn is_lower_hex(c: char) -> bool {
    ('0' <= c && c <= '9') || ('a' <= c && c <= 'f')
}

/// Relies on md5::compute over the UTF-8 bytes of `content`, written out with
/// the digest's `LowerHex`, which prints each of its 16 bytes as two
/// lowercase hex digits.
#[verifier::external_body]
fn md5_hex(content: &str) -> (r: String)
    ensures
        r@ == md5_hex_of(content@),
        r@.len() == 32,
        forall|i: int| 0 <= i < 32 ==> is_lower_hex(#[trigger] r@[i]),
{
    format!("{:x}", md5::compute(content))
}

/// What a file's coverage entry holds.
pub struct SourceModel {
    pub name: Seq<char>,
    pub digest: Seq<char>,
    pub coverage: Seq<Option<usize>>,
    pub branches: Option<Seq<usize>>,
    pub source: Option<Seq<char>>,
}

/// The entry for the file `name` whose text is `content`, with the given
/// hit map and, if collected, branch records.
pub open spec fn source_model(
    name: Seq<char>,
    content: Seq<char>,
    hits: Map<usize, usize>,
    branches: Option<Seq<BranchData>>,
    include_source: bool,
) -> SourceModel {
    SourceModel {
        name,
        digest: md5_hex_of(content),
        coverage: expanded_lines(hits, line_count(content)),
        branches: match branches {
            Some(b) => Some(expanded_branches(b)),
            None => None,
        },
        source: if include_source {
            Some(content)
        } else {
            None
        },
    }
}

/// Key and value text of each member of a JSON object.
pub open spec fn member_texts(members: Seq<(Seq<char>, Seq<char>)>) -> Seq<Seq<char>> {
    members.map_values(|m: (Seq<char>, Seq<char>)| member_text(m.0, m.1))
}

/// The keys of a JSON object's members, in order.
pub open spec fn member_keys(members: Seq<(Seq<char>, Seq<char>)>) -> Seq<Seq<char>> {
    members.map_values(|m: (Seq<char>, Seq<char>)| m.0)
}

/// The members of a file's JSON object: name, digest and coverage, then
/// branches and source text only where the entry has them.
pub open spec fn source_members(s: SourceModel) -> Seq<(Seq<char>, Seq<char>)> {
    seq![
        ("name"@, json_quoted_of(s.name)),
        ("source_digest"@, json_quoted_of(s.digest)),
        ("coverage"@, array_text(s.coverage.map_values(|c: Option<usize>| count_text(c)))),
    ] + match s.branches {
        Some(b) => seq![("branches"@, array_text(b.map_values(|v: usize| decimal(v as nat))))],
        None => Seq::empty(),
    } + match s.source {
        Some(t) => seq![("source"@, json_quoted_of(t))],
        None => Seq::empty(),
    }
}

/// The JSON object of a file's entry.
pub open spec fn source_json(s: SourceModel) -> Seq<char> {
    object_text(source_members(s))
}

/// Adding a member to an object adds its text to the joined members.
pub proof fn lemma_members_push(members: Seq<(Seq<char>, Seq<char>)>, m: (Seq<char>, Seq<char>))
    ensures
        joined(member_texts(members.push(m))) == joined(member_texts(members)) + separator(
            members.len() == 0,
        ) + member_text(m.0, m.1),
{
    assert(member_texts(members.push(m)) =~= member_texts(members).push(member_text(m.0, m.1)));
    lemma_joined_push(member_texts(members), member_text(m.0, m.1));
}

/// One source file's contribution to a report.
pub struct Source {
    name: String,
    source_digest: String,
    coverage: Vec<Option<usize>>,
    branches: Option<Vec<usize>>,
    source: Option<String>,
}

impl View for Source {
    type V = SourceModel;

    closed spec fn view(&self) -> SourceModel {
        SourceModel {
            name: self.name@,
            digest: self.source_digest@,
            coverage: self.coverage@,
            branches: match self.branches {
                Some(b) => Some(b@),
                None => None,
            },
            source: match self.source {
                Some(t) => Some(t@),
                None => None,
            },
        }
    }
}

/// Appends an object member whose value is the JSON string literal of `value`.
fn write_string_member(out: &mut String, first: bool, key: &str, value: &str)
    ensures
        final(out)@ == old(out)@ + separator(first) + member_text(
            key@,
            json_quoted_of(value@),
        ),
{
    write_key(out, first, key);
    write_string(out, value);
    assert(final(out)@ =~= old(out)@ + separator(first) + member_text(
        key@,
        json_quoted_of(value@),
    ));
}

impl Source {
    /// Builds the entry of the file at `repo_path` (relative to the
    /// repository root) from its text `content`: the digest of the text, one
    /// coverage slot per line, the flattened branch records if any were
    /// collected, and the text itself if `include_source` is set.
    pub fn new(
        repo_path: &str,
        content: &str,
        lines: &HashMap<usize, usize>,
        branches: &Option<Vec<BranchData>>,
        include_source: bool,
    ) -> (s: Source)
        ensures
            s@ == source_model(
                repo_path@,
                content@,
                lines@,
                match branches {
                    Some(b) => Some(b@),
                    None => None,
                },
                include_source,
            ),
            s@.digest.len() == 32,
            forall|i: int| 0 <= i < 32 ==> is_lower_hex(#[trigger] s@.digest[i]),
    {
        let src = if include_source {
            Some(String::from_str(content))
        } else {
            None
        };
        let brch = match branches {
            Some(b) => Some(expand_branches(b)),
            None => None,
        };
        let line_count = count_lines(content);
        Source {
            name: String::from_str(repo_path),
            source_digest: md5_hex(content),
            coverage: expand_lines(lines, line_count),
            branches: brch,
            source: src,
        }
    }

    /// Appends the entry's JSON object.
    pub fn write_json(&self, out: &mut String)
        ensures
            final(out)@ == old(out)@ + source_json(self@),
    {
        let ghost start = out@;
        let ghost ms = source_members(self@);
        let ghost mut done: Seq<(Seq<char>, Seq<char>)> = Seq::empty();
        proof {
            reveal_strlit("{");
            reveal_strlit("}");
        }
        out.append("{");
        assert(out@ =~= start + seq!['{'] + joined(member_texts(done)));
        write_string_member(out, true, "name", self.name.as_str());
        proof {
            lemma_members_push(done, ms[0]);
            done = done.push(ms[0]);
        }
        write_string_member(out, false, "source_digest", self.source_digest.as_str());
        proof {
            lemma_members_push(done, ms[1]);
            done = done.push(ms[1]);
        }
        write_key(out, false, "coverage");
        write_coverage(out, &self.coverage);
        proof {
            lemma_members_push(done, ms[2]);
            done = done.push(ms[2]);
        }
        assert(out@ =~= start + seq!['{'] + joined(member_texts(done)));
        match &self.branches {
            Some(b) => {
                write_key(out, false, "branches");
                write_counts(out, b);
                proof {
                    lemma_members_push(done, ms[3]);
                    done = done.push(ms[3]);
                }
                assert(out@ =~= start + seq!['{'] + joined(member_texts(done)));
            },
            None => {},
        }
        match &self.source {
            Some(t) => {
                let ghost m = ms[done.len() as int];
                write_string_member(out, false, "source", t.as_str());
                proof {
                    lemma_members_push(done, m);
                    done = done.push(m);
                }
                assert(out@ =~= start + seq!['{'] + joined(member_texts(done)));
            },
            None => {},
        }
        out.append("}");
        assert(done =~= ms);
        assert(final(out)@ =~= old(out)@ + source_json(self@));
    }
}

/// A CI execution that a report is attributed to.
pub struct Service {
    service_name: String,
    service_job_id: String,
}

impl View for Service {
    /// The service's name and job id.
    type V = (Seq<char>, Seq<char>);

    closed spec fn view(&self) -> (Seq<char>, Seq<char>) {
        (self.service_name@, self.service_job_id@)
    }
}

impl Service {
    /// The job `service_job_id` of the CI service `service_name`.
    pub fn new(service_name: String, service_job_id: String) -> (s: Service)
        ensures
            s@ == (service_name@, service_job_id@),
    {
        Service { service_name, service_job_id }
    }
}

/// The credential a report is sent under: a repository's secret token, or a
/// CI service job.
pub enum Identity {
    RepoToken(String),
    ServiceToken(Service),
}

/// What an identity holds.
pub enum IdentityModel {
    RepoToken(Seq<char>),
    Service(Seq<char>, Seq<char>),
}

impl View for Identity {
    type V = IdentityModel;

    open spec fn view(&self) -> IdentityModel {
        match self {
            Identity::RepoToken(t) => IdentityModel::RepoToken(t@),
            Identity::ServiceToken(s) => IdentityModel::Service(s@.0, s@.1),
        }
    }
}

/// What a report holds: its identity and its file entries, in the order
/// they were added.
pub struct ReportModel {
    pub id: IdentityModel,
    pub files: Seq<SourceModel>,
}

/// The members of a report's JSON object that carry its identity.
pub open spec fn identity_members(id: IdentityModel) -> Seq<(Seq<char>, Seq<char>)> {
    match id {
        IdentityModel::RepoToken(t) => seq![("repo_token"@, json_quoted_of(t))],
        IdentityModel::Service(name, job) => seq![
            ("service_name"@, json_quoted_of(name)),
            ("service_job_id"@, json_quoted_of(job)),
        ],
    }
}

/// The JSON array of a report's file entries.
pub open spec fn files_json(files: Seq<SourceModel>) -> Seq<char> {
    array_text(files.map_values(|s: SourceModel| source_json(s)))
}

/// The members of a report's JSON object: the identity, then the files.
pub open spec fn report_members(r: ReportModel) -> Seq<(Seq<char>, Seq<char>)> {
    identity_members(r.id).push(("source_files"@, files_json(r.files)))
}

/// The JSON body of a report.
pub open spec fn report_json(r: ReportModel) -> Seq<char> {
    object_text(report_members(r))
}

/// A coverage report: an identity and the coverage entries of its files.
pub struct CoverallsReport {
    id: Identity,
    source_files: Vec<Source>,
}

impl View for CoverallsReport {
    type V = ReportModel;

    closed spec fn view(&self) -> ReportModel {
        ReportModel { id: self.id@, files: self.source_files@.map_values(|s: Source| s@) }
    }
}

impl CoverallsReport {
    /// An empty report sent under `id`.
    pub fn new(id: Identity) -> (r: CoverallsReport)
        ensures
            r@ == (ReportModel { id: id@, files: Seq::empty() }),
    {
        let r = CoverallsReport { id, source_files: Vec::new() };
        assert(r@.files =~= Seq::<SourceModel>::empty());
        r
    }

    /// Adds a file's entry after those already in the report.
    pub fn add_source(&mut self, source: Source)
        ensures
            final(self)@ == (ReportModel {
                id: old(self)@.id,
                files: old(self)@.files.push(source@),
            }),
    {
        let ghost sv = source@;
        self.source_files.push(source);
        assert(final(self)@.files =~= old(self)@.files.push(sv));
    }

    /// Appends the JSON array of the report's file entries.
    fn write_files(&self, out: &mut String)
        ensures
            final(out)@ == old(out)@ + files_json(self@.files),
    {
        let ghost start = out@;
        let ghost items = self@.files.map_values(|s: SourceModel| source_json(s));
        proof {
            reveal_strlit("[");
            reveal_strlit("]");
        }
        out.append("[");
        let mut i: usize = 0;
        while i < self.source_files.len()
            invariant
                i <= self.source_files@.len(),
                items.len() == self.source_files@.len(),
                forall|k: int|
                    0 <= k < items.len() ==> #[trigger] items[k] == source_json(
                        self.source_files@[k]@,
                    ),
                out@ == start + seq!['['] + joined(items.take(i as int)),
            decreases self.source_files@.len() - i,
        {
            let ghost before = out@;
            proof {
                reveal_strlit(",");
            }
            if i > 0 {
                out.append(",");
            }
            assert(out@ =~= before + separator(i == 0));
            self.source_files[i].write_json(out);
            proof {
                lemma_joined_push(items.take(i as int), items[i as int]);
                assert(items.take(i as int).push(items[i as int]) =~= items.take(i + 1));
            }
            i = i + 1;
            assert(out@ =~= start + seq!['['] + joined(items.take(i as int)));
        }
        out.append("]");
        assert(items.take(i as int) =~= items);
        assert(final(out)@ =~= start + files_json(self@.files));
    }

    /// The report's JSON body: the identity's members, then `source_files`,
    /// the array of the file entries in the order they were added.
    pub fn to_json(&self) -> (r: String)
        ensures
            r@ == report_json(self@),
    {
        let mut out = String::new();
        let ghost ms = report_members(self@);
        let ghost mut done: Seq<(Seq<char>, Seq<char>)> = Seq::empty();
        proof {
            reveal_strlit("{");
            reveal_strlit("}");
        }
        out.append("{");
        assert(out@ =~= seq!['{'] + joined(member_texts(done)));
        match &self.id {
            Identity::RepoToken(t) => {
                write_string_member(&mut out, true, "repo_token", t.as_str());
                proof {
                    lemma_members_push(done, ms[0]);
                    done = done.push(ms[0]);
                }
            },
            Identity::ServiceToken(s) => {
                write_string_member(&mut out, true, "service_name", s.service_name.as_str());
                proof {
                    lemma_members_push(done, ms[0]);
                    done = done.push(ms[0]);
                }
                write_string_member(
                    &mut out,
                    false,
                    "service_job_id",
                    s.service_job_id.as_str(),
                );
                proof {
                    lemma_members_push(done, ms[1]);
                    done = done.push(ms[1]);
                }
            },
        }
        assert(done =~= identity_members(self@.id));
        write_key(&mut out, false, "source_files");
        self.write_files(&mut out);
        proof {
            lemma_members_push(done, ms[done.len() as int]);
            done = done.push(ms[done.len() as int]);
        }
        out.append("}");
        assert(done =~= ms);
        assert(out@ =~= report_json(self@));
        out
    }
}

/// An entry built without branch data has no `branches` member at all,
/// while one built from an empty list of branch records has a `branches`
/// member whose value is the empty array: the two are told apart on the wire.
pub proof fn lemma_branches_omission(
    name: Seq<char>,
    content: Seq<char>,
    hits: Map<usize, usize>,
    branches: Option<Seq<BranchData>>,
    include_source: bool,
)
    ensures
        member_keys(
            source_members(source_model(name, content, hits, branches, include_source)),
        ).contains("branches"@) <==> branches is Some,
        branches == Some(Seq::<BranchData>::empty()) ==> source_members(
            source_model(name, content, hits, branches, include_source),
        ).contains(("branches"@, seq!['[', ']'])),
{
    reveal_strlit("name");
    reveal_strlit("source_digest");
    reveal_strlit("coverage");
    reveal_strlit("branches");
    reveal_strlit("source");
    let s = source_model(name, content, hits, branches, include_source);
    let ms = source_members(s);
    let keys = member_keys(ms);
    let tail: Seq<Seq<char>> = if include_source {
        seq!["source"@]
    } else {
        Seq::empty()
    };
    match branches {
        Some(b) => {
            assert(keys =~= seq!["name"@, "source_digest"@, "coverage"@, "branches"@] + tail);
            assert(keys[3] == "branches"@);
            if b.len() == 0 {
                let empty = expanded_branches(b).map_values(|v: usize| decimal(v as nat));
                assert(empty =~= Seq::<Seq<char>>::empty());
                assert(array_text(empty) =~= seq!['[', ']']);
                assert(ms[3] == ("branches"@, seq!['[', ']']));
            }
        },
        None => {
            assert(keys =~= seq!["name"@, "source_digest"@, "coverage"@] + tail);
            assert(!keys.contains("branches"@)) by {
                if keys.contains("branches"@) {
                    let j = choose|j: int| 0 <= j < keys.len() && keys[j] == "branches"@;
                    assert(keys[j].len() != "branches"@.len() || keys[j][0] != 'b');
                }
            }
        },
    }
}

/// A report's JSON object carries either `repo_token`, or both
/// `service_name` and `service_job_id`, never a mixture of the two forms:
/// which one follows the report's identity.
pub proof fn lemma_identity_exclusive(r: ReportModel)
    ensures
        member_keys(report_members(r)).contains("repo_token"@) <==> r.id is RepoToken,
        member_keys(report_members(r)).contains("service_name"@) <==> r.id is Service,
        member_keys(report_members(r)).contains("service_job_id"@) <==> r.id is Service,
{
    reveal_strlit("repo_token");
    reveal_strlit("service_name");
    reveal_strlit("service_job_id");
    reveal_strlit("source_files");
    let keys = member_keys(report_members(r));
    match r.id {
        IdentityModel::RepoToken(_) => {
            assert(keys =~= seq!["repo_token"@, "source_files"@]);
            assert(keys[0] == "repo_token"@);
            assert(!keys.contains("service_name"@)) by {
                if keys.contains("service_name"@) {
                    let j = choose|j: int| 0 <= j < keys.len() && keys[j] == "service_name"@;
                    assert(keys[j][1] != "service_name"@[1] || keys[j].len() != "service_name"@.len());
                }
            }
            assert(!keys.contains("service_job_id"@)) by {
                if keys.contains("service_job_id"@) {
                    let j = choose|j: int| 0 <= j < keys.len() && keys[j] == "service_job_id"@;
                    assert(keys[j][1] != "service_job_id"@[1] || keys[j].len() != "service_job_id"@.len());
                }
            }
        },
        IdentityModel::Service(_, _) => {
            assert(keys =~= seq!["service_name"@, "service_job_id"@, "source_files"@]);
            assert(keys[0] == "service_name"@);
            assert(keys[1] == "service_job_id"@);
            assert(!keys.contains("repo_token"@)) by {
                if keys.contains("repo_token"@) {
                    let j = choose|j: int| 0 <= j < keys.len() && keys[j] == "repo_token"@;
                    assert(keys[j][0] != "repo_token"@[0]);
                }
            }
        },
    }
}

} // verus!
