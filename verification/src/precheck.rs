//! The MySQL pre-run checks: each takes the values its fetcher read from
//! the endpoint and decides, so that one misconfiguration is reported
//! before the pipeline starts. The fetching itself is the runtime's edge.

use vstd::prelude::*;
use crate::text::{lower_of, lowercase, str_eq};

verus! {

/// The check being reported.
#[derive(Clone, Copy, PartialEq, Eq, Structural, Debug)]
pub enum CheckItem {
    CheckDatabaseConnection,
    CheckDatabaseVersionSupported,
    CheckAccountPermission,
    CheckIfDatabaseSupportCdc,
    CheckIfStructExisted,
    CheckIfTableStructSupported,
}

/// One check's outcome: an error fails the run, a warning does not.
#[derive(Clone, PartialEq, Eq, Debug)]
pub struct CheckResult {
    pub item: CheckItem,
    pub is_source: bool,
    pub error: Option<String>,
    pub warning: Option<String>,
}

/// Whether the fixed version pattern accepts a version text: a `5` or an
/// `8` followed by a dot, anywhere in the text.
pub open spec fn version_supported(s: Seq<char>) -> bool {
    exists|i: int| 0 <= i < s.len() - 1 && ((#[trigger] s[i]) == '5' || s[i] == '8') && s[i + 1] == '.'
}

/// Relies on the regex crate: `is_match` with the fixed, unanchored pattern
/// of major versions five and eight (`5` or `8` followed by a dot) holds
/// exactly where such a pair occurs in the text.
#[verifier::external_body]
fn version_pattern_match(s: &str) -> (r: bool)
    ensures
        r == version_supported(s@),
{
    regex::Regex::new(r"5\..*|8\..*").unwrap().is_match(s)
}

/// Parts joined with `;`, as the check messages list names.
pub open spec fn join_semi(parts: Seq<Seq<char>>) -> Seq<char>
    decreases parts.len(),
{
    if parts.len() == 0 {
        Seq::empty()
    } else if parts.len() == 1 {
        parts[0]
    } else {
        parts[0] + seq![';'] + join_semi(parts.drop_first())
    }
}

proof fn lemma_join_semi_push(parts: Seq<Seq<char>>, x: Seq<char>)
    ensures
        join_semi(parts.push(x)) == if parts.len() == 0 {
            x
        } else {
            join_semi(parts) + seq![';'] + x
        },
    decreases parts.len(),
{
    if parts.len() == 0 {
        assert(parts.push(x)[0] == x);
    } else {
        assert(parts.push(x).drop_first() =~= parts.drop_first().push(x));
        lemma_join_semi_push(parts.drop_first(), x);
        if parts.len() == 1 {
            assert(join_semi(parts.push(x)) == parts[0] + seq![';'] + x);
        } else {
            assert(join_semi(parts) + seq![';'] + x =~= parts[0] + seq![';'] + (join_semi(
                parts.drop_first(),
            ) + seq![';'] + x));
        }
    }
}

/// Joins names with `;`.
pub fn join_with_semi(names: &Vec<String>) -> (r: String)
    ensures
        r@ == join_semi(names@.map_values(|s: String| s@)),
{
    let ghost parts = names@.map_values(|s: String| s@);
    let mut out = String::new();
    let mut i: usize = 0;
    while i < names.len()
        invariant
            0 <= i <= names@.len(),
            parts == names@.map_values(|s: String| s@),
            out@ == join_semi(parts.subrange(0, i as int)),
        decreases names@.len() - i,
    {
        if i > 0 {
            out.append(";");
        }
        out.append(names[i].as_str());
        proof {
            reveal_strlit(";");
            let pre = parts.subrange(0, i as int);
            let cur = parts.subrange(0, i + 1 as int);
            assert(cur =~= pre.push(parts[i as int]));
            lemma_join_semi_push(pre, parts[i as int]);
        }
        i = i + 1;
    }
    proof {
        assert(parts.subrange(0, names@.len() as int) =~= parts);
    }
    out
}

/// The names of `left` that `right` does not hold, in order, first
/// occurrence each.
pub open spec fn missing_names(left: Seq<String>, right: Seq<String>) -> Seq<String>
    decreases left.len(),
{
    if left.len() == 0 {
        Seq::empty()
    } else {
        let rest = missing_names(left.drop_first(), right);
        if (exists|j: int| 0 <= j < right.len() && (#[trigger] right[j])@ == left[0]@) || (
        exists|j: int| 0 <= j < rest.len() && (#[trigger] rest[j])@ == left[0]@) {
            rest
        } else {
            seq![left[0]] + rest
        }
    }
}

proof fn lemma_missing_names_iff(l: Seq<String>, r: Seq<String>)
    ensures
        (missing_names(l, r).len() == 0) <==> (forall|i: int|
            0 <= i < l.len() ==> exists|j: int|
                0 <= j < r.len() && (#[trigger] r[j])@ == (#[trigger] l[i])@),
    decreases l.len(),
{
    if l.len() > 0 {
        lemma_missing_names_iff(l.drop_first(), r);
        let rest = missing_names(l.drop_first(), r);
        let in_right = exists|j: int| 0 <= j < r.len() && (#[trigger] r[j])@ == l[0]@;
        let in_rest = exists|j: int| 0 <= j < rest.len() && (#[trigger] rest[j])@ == l[0]@;
        if missing_names(l, r).len() == 0 {
            assert(in_right || in_rest);
            assert(rest.len() == 0);
            assert(in_right);
            assert forall|i: int| 0 <= i < l.len() implies exists|j: int|
                0 <= j < r.len() && (#[trigger] r[j])@ == (#[trigger] l[i])@ by {
                if i > 0 {
                    assert(l.drop_first()[i - 1] == l[i]);
                }
            }
        }
        if forall|i: int|
            0 <= i < l.len() ==> exists|j: int|
                0 <= j < r.len() && (#[trigger] r[j])@ == (#[trigger] l[i])@ {
            assert forall|i: int| 0 <= i < l.drop_first().len() implies exists|j: int|
                0 <= j < r.len() && (#[trigger] r[j])@ == (#[trigger] l.drop_first()[i])@ by {
                assert(l.drop_first()[i] == l[i + 1]);
            }
            assert(rest.len() == 0);
            assert(in_right);
            assert(missing_names(l, r).len() == 0);
        }
    }
}

/// Whether a constraint kind carries a key: a primary key or a unique
/// constraint.
pub open spec fn is_key_kind(k: Seq<char>) -> bool {
    k == "PRIMARY KEY"@ || k == "UNIQUE"@
}

/// Whether a table has a primary-key or unique constraint among the
/// fetched constraints.
pub open spec fn has_key_constraint(
    constraints: Seq<(String, String, String, bool)>,
    tb: Seq<char>,
) -> bool {
    exists|c: int|
        0 <= c < constraints.len() && (#[trigger] constraints[c]).0@ == tb && is_key_kind(
            constraints[c].1@,
        )
}

fn name_in(names: &Vec<String>, x: &str) -> (r: bool)
    ensures
        r == exists|j: int| 0 <= j < names@.len() && (#[trigger] names@[j])@ == x@,
{
    let mut j: usize = 0;
    while j < names.len()
        invariant
            0 <= j <= names@.len(),
            forall|a: int| 0 <= a < j ==> (#[trigger] names@[a])@ != x@,
        decreases names@.len() - j,
    {
        if str_eq(names[j].as_str(), x) {
            return true;
        }
        j = j + 1;
    }
    false
}

/// The names of `left` that `right` does not hold, each once.
pub fn find_missing(left: &Vec<String>, right: &Vec<String>) -> (r: Vec<String>)
    ensures
        r@ =~= missing_names(left@, right@),
{
    let ghost lv = left@;
    let mut out: Vec<String> = Vec::new();
    let mut i: usize = left.len();
    while i > 0
        invariant
            0 <= i <= lv.len(),
            left@ == lv,
            out@ =~= missing_names(lv.subrange(i as int, lv.len() as int), right@),
        decreases i,
    {
        i = i - 1;
        proof {
            let tail = lv.subrange(i as int, lv.len() as int);
            assert(tail[0] == lv[i as int]);
            assert(tail.drop_first() =~= lv.subrange(i + 1 as int, lv.len() as int));
        }
        let present = name_in(right, left[i].as_str()) || name_in(&out, left[i].as_str());
        if !present {
            out.insert(0, left[i].clone());
        }
    }
    proof {
        assert(lv.subrange(0, lv.len() as int) =~= lv);
    }
    out
}

/// The MySQL pre-run checker: whether this endpoint is the source, and
/// whether the run performs structure initialization on the sink.
pub struct MySqlPrechecker {
    pub is_source: bool,
    pub do_struct_init: bool,
}

impl MySqlPrechecker {
    /// Decides the version check from the fetched version text: empty text
    /// is an error, as is a version the fixed pattern rejects.
    pub fn check_database_version(&self, version: &str) -> (r: CheckResult)
        ensures
            r.item == CheckItem::CheckDatabaseVersionSupported,
            r.is_source == self.is_source,
            r.warning is None,
            version@.len() == 0 ==> (r.error matches Some(e) && e@ == "found no version info."@),
            version@.len() > 0 && !version_supported(version@) ==> r.error is Some,
            version@.len() > 0 && version_supported(version@) ==> r.error is None,
    {
        if version.unicode_len() == 0 {
            return CheckResult {
                item: CheckItem::CheckDatabaseVersionSupported,
                is_source: self.is_source,
                error: Some("found no version info.".to_owned()),
                warning: None,
            };
        }
        if !version_pattern_match(version) {
            let mut msg = "mysql version:[".to_owned();
            msg.append(version);
            msg.append("] is invalid.");
            return CheckResult {
                item: CheckItem::CheckDatabaseVersionSupported,
                is_source: self.is_source,
                error: Some(msg),
                warning: None,
            };
        }
        CheckResult {
            item: CheckItem::CheckDatabaseVersionSupported,
            is_source: self.is_source,
            error: None,
            warning: None,
        }
    }

    /// Decides the CDC check from the fetched settings: for a sink nothing
    /// is checked; for a source, `log_bin` must be `on`, `binlog_format`
    /// `row`, and `binlog_row_image` `full` (case folded); any other key
    /// among the fetched settings is an error.
    pub fn check_cdc_supported(&self, configs: &Vec<(String, String)>) -> (r: Result<
        CheckResult,
        String,
    >)
        ensures
            r matches Ok(c) ==> c.item == CheckItem::CheckIfDatabaseSupportCdc && c.is_source
                == self.is_source && c.warning is None,
            !self.is_source ==> (r matches Ok(c) && c.error is None),
            self.is_source ==> (r is Err <==> exists|i: int|
                0 <= i < configs@.len() && !((#[trigger] configs@[i]).0@ == "log_bin"@
                    || configs@[i].0@ == "binlog_format"@ || configs@[i].0@
                    == "binlog_row_image"@)),
            self.is_source ==> (r matches Ok(c) ==> ((c.error is None) <==> forall|i: int|
                0 <= i < configs@.len() ==> ({
                    let (k, v) = #[trigger] configs@[i];
                    &&& (k@ == "log_bin"@ ==> lower_of(v@) == "on"@)
                    &&& (k@ == "binlog_format"@ ==> lower_of(v@) == "row"@)
                    &&& (k@ == "binlog_row_image"@ ==> lower_of(v@) == "full"@)
                }))),
    {
        if !self.is_source {
            return Ok(
                CheckResult {
                    item: CheckItem::CheckIfDatabaseSupportCdc,
                    is_source: self.is_source,
                    error: None,
                    warning: None,
                },
            );
        }
        let mut errs: Vec<String> = Vec::new();
        let mut i: usize = 0;
        let mut all_ok = true;
        proof {
            reveal_strlit("log_bin");
            reveal_strlit("binlog_format");
            reveal_strlit("binlog_row_image");
            reveal_strlit("on");
            reveal_strlit("row");
            reveal_strlit("full");
        }
        while i < configs.len()
            invariant
                self.is_source,
                0 <= i <= configs@.len(),
                all_ok <==> forall|a: int|
                    0 <= a < i ==> ({
                        let (k, v) = #[trigger] configs@[a];
                        &&& (k@ == "log_bin"@ ==> lower_of(v@) == "on"@)
                        &&& (k@ == "binlog_format"@ ==> lower_of(v@) == "row"@)
                        &&& (k@ == "binlog_row_image"@ ==> lower_of(v@) == "full"@)
                    }),
                !all_ok ==> errs@.len() > 0,
                forall|a: int|
                    0 <= a < i ==> ((#[trigger] configs@[a]).0@ == "log_bin"@ || configs@[a].0@
                        == "binlog_format"@ || configs@[a].0@ == "binlog_row_image"@),
            decreases configs@.len() - i,
        {
            proof {
                reveal_strlit("log_bin");
                reveal_strlit("binlog_format");
                reveal_strlit("binlog_row_image");
                reveal_strlit("on");
                reveal_strlit("row");
                reveal_strlit("full");
                assert("log_bin"@.len() == 7);
                assert("binlog_format"@.len() == 13);
                assert("binlog_row_image"@.len() == 16);
            }
            let k = &configs[i].0;
            let lv = lowercase(configs[i].1.as_str());
            let this_ok: bool;
            if str_eq(k.as_str(), "log_bin") {
                this_ok = str_eq(lv.as_str(), "on");
                if !this_ok {
                    let mut m = "log_bin setting:[".to_owned();
                    m.append(lv.as_str());
                    m.append("] is not 'on'.");
                    errs.push(m);
                }
            } else if str_eq(k.as_str(), "binlog_row_image") {
                this_ok = str_eq(lv.as_str(), "full");
                if !this_ok {
                    let mut m = "binlog_row_image setting:[".to_owned();
                    m.append(lv.as_str());
                    m.append("] is not 'full'");
                    errs.push(m);
                }
            } else if str_eq(k.as_str(), "binlog_format") {
                this_ok = str_eq(lv.as_str(), "row");
                if !this_ok {
                    let mut m = "binlog_format setting:[".to_owned();
                    m.append(lv.as_str());
                    m.append("] is not 'row'.");
                    errs.push(m);
                }
            } else {
                proof {
                    assert(self.is_source);
                    assert(!((configs@[i as int]).0@ == "log_bin"@ || configs@[i as int].0@
                        == "binlog_format"@ || configs@[i as int].0@ == "binlog_row_image"@));
                }
                return Err("find database cdc settings meet unknown error".to_owned());
            }
            proof {
                let (gk, gv) = configs@[i as int];
                assert(this_ok == ((gk@ == "log_bin"@ ==> lower_of(gv@) == "on"@) && (gk@
                    == "binlog_format"@ ==> lower_of(gv@) == "row"@) && (gk@
                    == "binlog_row_image"@ ==> lower_of(gv@) == "full"@)));
            }
            all_ok = all_ok && this_ok;
            i = i + 1;
        }
        let error = if all_ok {
            None
        } else {
            Some(join_with_semi(&errs))
        };
        Ok(
            CheckResult {
                item: CheckItem::CheckIfDatabaseSupportCdc,
                is_source: self.is_source,
                error,
                warning: None,
            },
        )
    }

    /// Decides the existence check from the configured and fetched names:
    /// on the source, or on a sink without structure initialization, every
    /// configured table and schema must be present.
    pub fn check_struct_existed_or_not(
        &self,
        config_tbs: &Vec<String>,
        config_dbs: &Vec<String>,
        current_tbs: &Vec<String>,
        current_dbs: &Vec<String>,
    ) -> (r: CheckResult)
        ensures
            r.item == CheckItem::CheckIfStructExisted,
            r.is_source == self.is_source,
            r.warning is None,
            !(self.is_source || !self.do_struct_init) ==> r.error is None,
            self.is_source || !self.do_struct_init ==> ((r.error is None) <==> (missing_names(
                config_tbs@,
                current_tbs@,
            ).len() == 0 && missing_names(config_dbs@, current_dbs@).len() == 0)),
    {
        if !(self.is_source || !self.do_struct_init) {
            return CheckResult {
                item: CheckItem::CheckIfStructExisted,
                is_source: self.is_source,
                error: None,
                warning: None,
            };
        }
        let missing_tbs = find_missing(config_tbs, current_tbs);
        let missing_dbs = find_missing(config_dbs, current_dbs);
        if missing_tbs.len() == 0 && missing_dbs.len() == 0 {
            return CheckResult {
                item: CheckItem::CheckIfStructExisted,
                is_source: self.is_source,
                error: None,
                warning: None,
            };
        }
        let mut msg = String::new();
        if missing_tbs.len() > 0 {
            msg.append("tables not existed: [");
            let joined = join_with_semi(&missing_tbs);
            msg.append(joined.as_str());
            msg.append("]");
        }
        if missing_dbs.len() > 0 {
            if missing_tbs.len() > 0 {
                msg.append(".");
            }
            msg.append("databases not existed: [");
            let joined = join_with_semi(&missing_dbs);
            msg.append(joined.as_str());
            msg.append("]");
        }
        CheckResult {
            item: CheckItem::CheckIfStructExisted,
            is_source: self.is_source,
            error: Some(msg),
            warning: None,
        }
    }

    /// Decides the table-structure check from the fetched constraints and
    /// tables: a foreign-key reference to a table the filter excludes is an
    /// error; a table with neither primary nor unique key is a warning.
    /// `constraints` carries `(schema.tb, constraint kind, referenced
    /// schema.tb or empty, whether the reference is filtered out)`; the
    /// fetching and filtering of references is the caller's.
    pub fn check_table_structs(
        &self,
        constraints: &Vec<(String, String, String, bool)>,
        tables: &Vec<String>,
    ) -> (r: CheckResult)
        ensures
            r.item == CheckItem::CheckIfTableStructSupported,
            r.is_source == self.is_source,
            !self.is_source && self.do_struct_init ==> r.error is None && r.warning is None,
            self.is_source || !self.do_struct_init ==> ((r.error is Some) <==> exists|i: int|
                0 <= i < constraints@.len() && (#[trigger] constraints@[i]).1@
                    == "FOREIGN KEY"@ && constraints@[i].3 && constraints@[i].2@.len() > 0),
            self.is_source || !self.do_struct_init ==> ((r.warning is Some) <==> exists|t: int|
                0 <= t < tables@.len() && !has_key_constraint(
                    constraints@,
                    (#[trigger] tables@[t])@,
                )),
    {
        if !self.is_source && self.do_struct_init {
            return CheckResult {
                item: CheckItem::CheckIfTableStructSupported,
                is_source: self.is_source,
                error: None,
                warning: None,
            };
        }
        let mut has_pkuk: Vec<String> = Vec::new();
        let mut fkref_missing: Vec<String> = Vec::new();
        let mut i: usize = 0;
        while i < constraints.len()
            invariant
                0 <= i <= constraints@.len(),
                fkref_missing@.len() > 0 <==> exists|a: int|
                    0 <= a < i && (#[trigger] constraints@[a]).1@ == "FOREIGN KEY"@
                        && constraints@[a].3 && constraints@[a].2@.len() > 0,
                forall|a: int|
                    0 <= a < has_pkuk@.len() ==> exists|c: int|
                        0 <= c < i && (#[trigger] constraints@[c]).0@ == (
                        #[trigger] has_pkuk@[a])@ && is_key_kind(constraints@[c].1@),
                forall|c: int|
                    0 <= c < i && is_key_kind((#[trigger] constraints@[c]).1@) ==> exists|a: int|
                        0 <= a < has_pkuk@.len() && (#[trigger] has_pkuk@[a])@ == constraints@[
                            c
                        ].0@,
            decreases constraints@.len() - i,
        {
            let ghost pk0 = has_pkuk@;
            let kind = &constraints[i].1;
            if str_eq(kind.as_str(), "PRIMARY KEY") || str_eq(kind.as_str(), "UNIQUE") {
                proof {
                    reveal_strlit("PRIMARY KEY");
                    reveal_strlit("UNIQUE");
                    reveal_strlit("FOREIGN KEY");
                    assert("UNIQUE"@.len() == 6);
                    assert("FOREIGN KEY"@.len() == 11);
                    assert("PRIMARY KEY"@[0] == 'P' && "FOREIGN KEY"@[0] == 'F');
                    assert(constraints@[i as int].1@ != "FOREIGN KEY"@);
                }
                if !name_in(&has_pkuk, constraints[i].0.as_str()) {
                    has_pkuk.push(constraints[i].0.clone());
                    proof {
                        assert(forall|a: int| 0 <= a < pk0.len() ==> has_pkuk@[a] == #[trigger] pk0[a]);
                        assert(has_pkuk@[has_pkuk@.len() - 1]@ == constraints@[i as int].0@);
                    }
                }
            } else if str_eq(kind.as_str(), "FOREIGN KEY") {
                if constraints[i].3 && constraints[i].2.as_str().unicode_len() > 0 {
                    if !name_in(&fkref_missing, constraints[i].2.as_str()) {
                        fkref_missing.push(constraints[i].2.clone());
                    }
                    proof {
                        assert(fkref_missing@.len() > 0);
                    }
                }
            }
            i = i + 1;
        }
        let no_pkuk = find_missing(tables, &has_pkuk);
        proof {
            lemma_missing_names_iff(tables@, has_pkuk@);
            assert forall|t: int| 0 <= t < tables@.len() implies ((exists|j: int|
                0 <= j < has_pkuk@.len() && (#[trigger] has_pkuk@[j])@ == (
                #[trigger] tables@[t])@) <==> has_key_constraint(
                constraints@,
                tables@[t]@,
            )) by {
                if exists|j: int|
                    0 <= j < has_pkuk@.len() && (#[trigger] has_pkuk@[j])@ == tables@[t]@ {
                    let j = choose|j: int|
                        0 <= j < has_pkuk@.len() && (#[trigger] has_pkuk@[j])@ == tables@[t]@;
                    let c = choose|c: int|
                        0 <= c < constraints@.len() && (#[trigger] constraints@[c]).0@
                            == has_pkuk@[j]@ && is_key_kind(constraints@[c].1@);
                    assert(constraints@[c].0@ == tables@[t]@ && is_key_kind(
                        constraints@[c].1@,
                    ));
                }
                if has_key_constraint(constraints@, tables@[t]@) {
                    let c = choose|c: int|
                        0 <= c < constraints@.len() && (#[trigger] constraints@[c]).0@
                            == tables@[t]@ && is_key_kind(constraints@[c].1@);
                    assert(exists|a: int|
                        0 <= a < has_pkuk@.len() && (#[trigger] has_pkuk@[a])@ == constraints@[
                            c
                        ].0@);
                }
            }
            if no_pkuk@.len() == 0 {
                assert(forall|t: int|
                    0 <= t < tables@.len() ==> has_key_constraint(
                        constraints@,
                        (#[trigger] tables@[t])@,
                    ));
            } else {
                assert(!(forall|i: int|
                    0 <= i < tables@.len() ==> exists|j: int|
                        0 <= j < has_pkuk@.len() && (#[trigger] has_pkuk@[j])@ == (
                        #[trigger] tables@[i])@));
                let t = choose|t: int|
                    0 <= t < tables@.len() && !(exists|j: int|
                        0 <= j < has_pkuk@.len() && (#[trigger] has_pkuk@[j])@ == (
                        #[trigger] tables@[t])@);
                assert(!has_key_constraint(constraints@, tables@[t]@));
            }
        }
        let error = if fkref_missing.len() > 0 {
            let mut m =
                "the following foreign key dependent tables are not defined in the replication object:[".to_owned();
            let joined = join_with_semi(&fkref_missing);
            m.append(joined.as_str());
            m.append("]");
            Some(m)
        } else {
            None
        };
        let warning = if no_pkuk.len() > 0 {
            let mut m =
                "primary key or unique key are needed, but these tables don't have any:[".to_owned();
            let joined = join_with_semi(&no_pkuk);
            m.append(joined.as_str());
            m.append("]");
            Some(m)
        } else {
            None
        };
        CheckResult {
            item: CheckItem::CheckIfTableStructSupported,
            is_source: self.is_source,
            error,
            warning,
        }
    }
}

} // verus!
