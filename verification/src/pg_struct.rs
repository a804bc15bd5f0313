//! The pure decisions of the Postgres structure fetcher: reading a
//! sequence name out of a column default, classifying index definitions,
//! and identity-generation rules. The catalog queries around them are the
//! runtime's edge.

use vstd::prelude::*;
use crate::filter::RdbFilter;
use crate::text::{has_prefix, lower_of, lowercase, str_eq, str_starts_with};
use crate::tokens::{
    parse_tokens, spec_trim_end_matches, spec_trim_start_matches, spec_trim_ws, spec_unescape,
    split_tokens, trim_end_matches_str, trim_start_matches_str, trim_ws, unescape,
};

verus! {

/// What an index definition is recognized as.
#[derive(Clone, Copy, PartialEq, Eq, Structural, Debug)]
pub enum IndexKind {
    Unique,
    Unknown,
}

/// The schema and sequence name a column default names, empty where it
/// names none: the default is trimmed, must call `nextval(...)`, loses the
/// quoting and the `::regclass` cast, and splits on a dot outside double
/// quotes.
pub open spec fn sequence_name_of_default(s: Seq<char>) -> (Seq<char>, Seq<char>) {
    let v0 = spec_trim_ws(s);
    if !has_prefix(v0, "nextval("@) {
        (Seq::empty(), Seq::empty())
    } else {
        let v = spec_trim_end_matches(
            spec_trim_end_matches(
                spec_trim_end_matches(
                    spec_trim_start_matches(
                        spec_trim_start_matches(v0, "nextval("@),
                        seq!['\''],
                    ),
                    seq![')'],
                ),
                "::regclass"@,
            ),
            seq!['\''],
        );
        let toks = split_tokens(v, '.', '"');
        if toks.len() == 1 {
            (Seq::empty(), spec_unescape(toks[0], '"', '"'))
        } else if toks.len() == 2 {
            (spec_unescape(toks[0], '"', '"'), spec_unescape(toks[1], '"', '"'))
        } else {
            (Seq::empty(), Seq::empty())
        }
    }
}

/// The pure side of the structure fetcher: one schema and the task filter.
pub struct PgStructFetcher {
    pub schema: String,
    pub filter: Option<RdbFilter>,
}

impl PgStructFetcher {
    /// Reads the schema and sequence name out of a column default.
    pub fn get_sequence_name_by_default_value(default_value: &str) -> (r: (String, String))
        ensures
            r.0@ == sequence_name_of_default(default_value@).0,
            r.1@ == sequence_name_of_default(default_value@).1,
    {
        let value = trim_ws(default_value);
        if !str_starts_with(value, "nextval(") {
            return (String::new(), String::new());
        }
        let value = trim_start_matches_str(value, "nextval(");
        let value = trim_start_matches_str(value, "'");
        let value = trim_end_matches_str(value, ")");
        let value = trim_end_matches_str(value, "::regclass");
        let value = trim_end_matches_str(value, "'");
        proof {
            reveal_strlit("'");
            reveal_strlit(")");
            assert("'"@ =~= seq!['\'']);
            assert(")"@ =~= seq![')']);
        }
        let tokens = parse_tokens(value, '.', '"');
        if tokens.len() == 1 {
            let ghost toks = split_tokens(value@, '.', '"');
            proof {
                assert(tokens@.map_values(|t: String| t@)[0] == toks[0]);
            }
            (String::new(), unescape(tokens[0].as_str(), '"', '"'))
        } else if tokens.len() == 2 {
            let ghost toks = split_tokens(value@, '.', '"');
            proof {
                assert(tokens@.map_values(|t: String| t@)[0] == toks[0]);
                assert(tokens@.map_values(|t: String| t@)[1] == toks[1]);
            }
            (
                unescape(tokens[0].as_str(), '"', '"'),
                unescape(tokens[1].as_str(), '"', '"'),
            )
        } else {
            (String::new(), String::new())
        }
    }

    /// Classifies an index definition: only explicit unique indexes are
    /// recognized.
    pub fn get_index_kind(&self, definition: &str) -> (r: IndexKind)
        ensures
            r == (if has_prefix(definition@, "CREATE UNIQUE INDEX"@) {
                IndexKind::Unique
            } else {
                IndexKind::Unknown
            }),
    {
        if str_starts_with(definition, "CREATE UNIQUE INDEX") {
            IndexKind::Unique
        } else {
            IndexKind::Unknown
        }
    }

    /// The generation rule of an identity column: the generation kind when
    /// the column is an identity column, nothing otherwise.
    pub fn get_col_generation_rule(
        is_identity: Option<String>,
        identity_generation: Option<String>,
    ) -> (r: Option<String>)
        ensures
            match (is_identity, identity_generation) {
                (Some(i), Some(g)) => if lower_of(i@) == "yes"@ {
                    r matches Some(o) && o == g
                } else {
                    r is None
                },
                _ => r is None,
            },
    {
        match (is_identity, identity_generation) {
            (Some(i), Some(g)) => {
                let li = lowercase(i.as_str());
                if str_eq(li.as_str(), "yes") {
                    Some(g)
                } else {
                    None
                }
            },
            _ => None,
        }
    }

    /// Whether the named table is filtered out of the structure run.
    pub fn filter_tb(&self, tb: &str) -> (r: bool)
        ensures
            r == (self.filter matches Some(f) && f.spec_filter_tb(self.schema@, tb@)),
    {
        match &self.filter {
            Some(filter) => filter.filter_tb(self.schema.as_str(), tb),
            None => false,
        }
    }
}


fn contains_name(names: &Vec<String>, x: &str) -> (r: bool)
    ensures
        r == exists|j: int| 0 <= j < names@.len() && (#[trigger] names@[j])@ == x@,
{
    let mut j: usize = 0;
    while j < names.len()
        invariant
            0 <= j <= names@.len(),
            forall|a: int| 0 <= a < j ==> (#[trigger] names@[a])@ != x@,
        decreases names@.len() - j,
    {
        if str_eq(names[j].as_str(), x) {
            return true;
        }
        j = j + 1;
    }
    false
}


/// Every name in `r` is one of the given column defaults.
pub open spec fn names_drawn_from(r: Seq<String>, defaults: Seq<String>) -> bool {
    forall|i: int|
        #![trigger r[i]]
        0 <= i < r.len() ==> exists|j: int|
            0 <= j < defaults.len() && (#[trigger] defaults[j])@ == r[i]@
}

/// Whether a column default names an independent sequence: a `nextval`
/// sequence of this schema (or of none) that the table's own sequences do
/// not already cover.
pub open spec fn qualifies_as_independent(
    default_value: String,
    owned: Seq<String>,
    schema: Seq<char>,
) -> bool {
    let (seq_schema, seq_name) = sequence_name_of_default(default_value@);
    &&& seq_name.len() > 0
    &&& seq_schema.len() == 0 || seq_schema == schema
    &&& !(exists|j: int| 0 <= j < owned.len() && (#[trigger] owned[j])@ == seq_name)
}

/// Every qualifying default is represented in the result.
pub open spec fn covers_independent(
    r: Seq<String>,
    defaults: Seq<String>,
    owned: Seq<String>,
    schema: Seq<char>,
) -> bool {
    forall|j: int|
        #![trigger defaults[j]]
        0 <= j < defaults.len() ==> (qualifies_as_independent(defaults[j], owned, schema)
            ==> exists|i: int| 0 <= i < r.len() && (#[trigger] r[i])@ == defaults[j]@)
}

impl PgStructFetcher {
    /// The column defaults that name an independent sequence, each once:
    /// defaults drawing from a sequence of this schema that the table's own
    /// sequences do not already cover. A default naming a sequence of
    /// another schema is skipped, as cross-schema sequences are not carried
    /// over.
    pub fn independent_sequence_defaults(&self, defaults: &Vec<String>, owned: &Vec<String>) -> (r:
        Vec<String>)
        ensures
            forall|i: int|
                0 <= i < r@.len() ==> qualifies_as_independent(
                    #[trigger] r@[i],
                    owned@,
                    self.schema@,
                ),
            names_drawn_from(r@, defaults@),
            covers_independent(r@, defaults@, owned@, self.schema@),
    {
        let mut out: Vec<String> = Vec::new();
        let mut i: usize = 0;
        while i < defaults.len()
            invariant
                0 <= i <= defaults@.len(),
                forall|a: int|
                    0 <= a < out@.len() ==> qualifies_as_independent(
                        #[trigger] out@[a],
                        owned@,
                        self.schema@,
                    ),
                names_drawn_from(out@, defaults@),
                covers_independent(out@, defaults@.subrange(0, i as int), owned@, self.schema@),
            decreases defaults@.len() - i,
        {
            let (seq_schema, seq_name) =
                Self::get_sequence_name_by_default_value(defaults[i].as_str());
            let named = seq_name.as_str().unicode_len() > 0;
            let schema_ok = seq_schema.as_str().unicode_len() == 0 || str_eq(
                seq_schema.as_str(),
                self.schema.as_str(),
            );
            let already_owned = contains_name(owned, seq_name.as_str());
            let dup = contains_name(&out, defaults[i].as_str());
            let ghost out0 = out@;
            if named && schema_ok && !already_owned && !dup {
                out.push(defaults[i].clone());
                proof {
                    let a = out@.len() - 1;
                    assert(out@[a]@ == defaults@[i as int]@);
                    assert(sequence_name_of_default(out@[a]@).1 == seq_name@);
                    assert(sequence_name_of_default(out@[a]@).0 == seq_schema@);
                    assert(qualifies_as_independent(out@[a], owned@, self.schema@));
                    assert(forall|b: int| 0 <= b < out0.len() ==> out@[b] == #[trigger] out0[b]);
                }
            }
            proof {
                let pre = defaults@.subrange(0, i as int);
                let cur = defaults@.subrange(0, i + 1 as int);
                assert(forall|b: int| 0 <= b < pre.len() ==> cur[b] == #[trigger] pre[b]);
                assert(cur[i as int] == defaults@[i as int]);
                assert forall|j: int|
                    0 <= j < cur.len() && qualifies_as_independent(
                        #[trigger] cur[j],
                        owned@,
                        self.schema@,
                    ) implies exists|a: int|
                    0 <= a < out@.len() && (#[trigger] out@[a])@ == cur[j]@ by {
                    if j < i as int {
                        assert(pre[j] == cur[j]);
                        let a = choose|a: int|
                            0 <= a < out0.len() && (#[trigger] out0[a])@ == pre[j]@;
                        assert(out@[a]@ == cur[j]@);
                    } else {
                        assert(cur[j] == defaults@[i as int]);
                        if named && schema_ok && !already_owned && !dup {
                            assert(out@[out@.len() - 1]@ == cur[j]@);
                        } else if dup {
                            let a = choose|a: int|
                                0 <= a < out0.len() && (#[trigger] out0[a])@ == defaults@[
                                    i as int
                                ]@;
                            assert(out@[a]@ == cur[j]@);
                        } else {
                            assert(!qualifies_as_independent(cur[j], owned@, self.schema@));
                        }
                    }
                }
            }
            i = i + 1;
        }
        proof {
            assert(defaults@.subrange(0, defaults@.len() as int) =~= defaults@);
        }
        out
    }
}

} // verus!
