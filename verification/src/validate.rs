//! Validation of seam records: where to look, the bookkeeping of schema
//! and policy errors file by file, and how it ends.
use vstd::prelude::*;
use crate::error::SeamError;
use crate::json::{CompiledSchema, JsonDoc, schema_violations, validation_errors};
use crate::model::SeamRecord;
use crate::policy::{policy_checks, policy_errors, push_text};
use crate::text::{concat2, concat3};

verus! {

/// The root that is scanned when none is given.
pub open spec fn spec_default_root() -> Seq<char> {
    "."@
}

/// The schema that is used when none is given.
pub open spec fn spec_default_schema_path() -> Seq<char> {
    "seams/schema/seam-record.schema.json"@
}

/// The root that is scanned when none is given: the current directory.
pub fn default_root() -> (r: String)
    ensures
        r@ == spec_default_root(),
{
    String::from_str(".")
}

/// The schema that is used when none is given.
pub fn default_schema_path() -> (r: String)
    ensures
        r@ == spec_default_schema_path(),
{
    String::from_str("seams/schema/seam-record.schema.json")
}

/// The given value, or `default` when there is none.
pub open spec fn or_default(v: Option<String>, default: Seq<char>) -> Seq<char> {
    match v {
        Some(s) => s@,
        None => default,
    }
}

/// The relative path `rel` under the directory `base`, as `Utf8Path::join`
/// forms it: a `/` goes between them unless `base` is empty or already
/// ends with one.
pub open spec fn join_under(base: Seq<char>, rel: Seq<char>) -> Seq<char> {
    if base.len() == 0 || base.last() == '/' {
        base + rel
    } else {
        base + "/"@ + rel
    }
}

/// The relative path `rel` under the directory `base`.
pub fn join_path(base: &str, rel: &str) -> (r: String)
    ensures
        r@ == join_under(base@, rel@),
{
    let n = base.unicode_len();
    if n == 0 || base.get_char(n - 1) == '/' {
        concat2(base, rel)
    } else {
        concat3(base, "/", rel)
    }
}

/// The schema to use: the given one, or the standard schema under `root`.
pub open spec fn schema_for(root: Seq<char>, schema: Option<String>) -> Seq<char> {
    match schema {
        Some(s) => s@,
        None => join_under(root, spec_default_schema_path()),
    }
}

/// The root to scan and the schema to use, defaults filled in: the root
/// defaults to the current directory, the schema to
/// `seams/schema/seam-record.schema.json` under the root.
pub fn resolve_paths(root: Option<String>, schema: Option<String>) -> (r: (String, String))
    ensures
        r.0@ == or_default(root, spec_default_root()),
        r.1@ == schema_for(r.0@, schema),
{
    let root = match root {
        Some(r) => r,
        None => default_root(),
    };
    let schema = match schema {
        Some(s) => s,
        None => {
            let rel = default_schema_path();
            join_path(root.as_str(), rel.as_str())
        },
    };
    (root, schema)
}

/// `validate` needs at least one seam record file.
pub fn require_seam_files(files: &Vec<String>) -> (r: Result<(), SeamError>)
    ensures
        files.len() == 0 <==> r is Err,
        r matches Err(e) ==> e is NoSeamFiles,
{
    if files.len() == 0 {
        Err(SeamError::NoSeamFiles)
    } else {
        Ok(())
    }
}

/// Each error of `file`, reported as `"{file}: {error}"`.
pub open spec fn prefixed(file: Seq<char>, errs: Seq<Seq<char>>) -> Seq<Seq<char>> {
    Seq::new(errs.len(), |i: int| file + ": "@ + errs[i])
}

/// Appends each of `errs`, prefixed by `file`, to `out`.
fn push_prefixed(out: &mut Vec<String>, file: &str, errs: &Vec<String>)
    ensures
        final(out).deep_view() == old(out).deep_view() + prefixed(file@, errs.deep_view()),
{
    let ghost start = out.deep_view();
    let ghost ev = errs.deep_view();
    let n = errs.len();
    let mut i: usize = 0;
    while i < n
        invariant
            n == errs.len(),
            ev == errs.deep_view(),
            i <= n,
            out.deep_view() == start + prefixed(file@, ev.take(i as int)),
        decreases n - i,
    {
        push_text(out, concat3(file, ": ", errs[i].as_str()));
        proof {
            assert(prefixed(file@, ev.take(i + 1)) =~= prefixed(file@, ev.take(i as int)).push(
                file@ + ": "@ + ev[i as int],
            ));
        }
        i = i + 1;
    }
    assert(ev.take(n as int) =~= ev);
}

/// How a validation ended.
#[derive(Debug)]
pub enum ValidationOutcome {
    /// Every record passed the schema and the policy.
    Valid,
    /// Some record failed the schema; its errors, in file order.
    SchemaInvalid(Vec<String>),
    /// Every record passed the schema, some failed the policy; the errors.
    PolicyViolated(Vec<String>),
}

/// What one file came to in a run: its name, the messages of the schema's
/// violations, and the policy errors of its record (none while its policy
/// is not checked, and none where the schema failed it).
pub type FileReport = (Seq<char>, Seq<Seq<char>>, Seq<Seq<char>>);

/// The schema errors of a run, file by file, each as `"{file}: {error}"`.
pub open spec fn run_schema_errors(rs: Seq<FileReport>) -> Seq<Seq<char>>
    decreases rs.len(),
{
    if rs.len() == 0 {
        seq![]
    } else {
        run_schema_errors(rs.drop_last()) + prefixed(rs.last().0, rs.last().1)
    }
}

/// The policy errors of a run, file by file, each as `"{file}: {error}"`.
pub open spec fn run_policy_errors(rs: Seq<FileReport>) -> Seq<Seq<char>>
    decreases rs.len(),
{
    if rs.len() == 0 {
        seq![]
    } else {
        run_policy_errors(rs.drop_last()) + prefixed(rs.last().0, rs.last().2)
    }
}

/// A run has schema errors exactly when some file broke the schema, and
/// policy errors exactly when some file's record broke the policy; with
/// `finish`, the run ends in schema errors (status 2) when any file broke
/// the schema, else in policy errors (status 3) when any record broke the
/// policy, else as valid.
pub proof fn lemma_run_errors(rs: Seq<FileReport>)
    ensures
        run_schema_errors(rs).len() == 0 <==> forall|i: int| 0 <= i < rs.len() ==> (#[trigger] rs[i]).1.len() == 0,
        run_policy_errors(rs).len() == 0 <==> forall|i: int| 0 <= i < rs.len() ==> (#[trigger] rs[i]).2.len() == 0,
    decreases rs.len(),
{
    if rs.len() > 0 {
        let t = rs.drop_last();
        let n = rs.len() - 1;
        lemma_run_errors(t);
        assert(run_schema_errors(rs).len() == run_schema_errors(t).len() + rs[n].1.len());
        assert(run_policy_errors(rs).len() == run_policy_errors(t).len() + rs[n].2.len());
        if forall|i: int| 0 <= i < rs.len() ==> (#[trigger] rs[i]).1.len() == 0 {
            assert forall|i: int| 0 <= i < t.len() implies (#[trigger] t[i]).1.len() == 0 by {
                assert(t[i] == rs[i]);
            }
            assert(rs[n].1.len() == 0);
        }
        if run_schema_errors(rs).len() == 0 {
            assert forall|i: int| 0 <= i < rs.len() implies (#[trigger] rs[i]).1.len() == 0 by {
                if i < n {
                    assert(t[i] == rs[i]);
                }
            }
        }
        if forall|i: int| 0 <= i < rs.len() ==> (#[trigger] rs[i]).2.len() == 0 {
            assert forall|i: int| 0 <= i < t.len() implies (#[trigger] t[i]).2.len() == 0 by {
                assert(t[i] == rs[i]);
            }
            assert(rs[n].2.len() == 0);
        }
        if run_policy_errors(rs).len() == 0 {
            assert forall|i: int| 0 <= i < rs.len() implies (#[trigger] rs[i]).2.len() == 0 by {
                if i < n {
                    assert(t[i] == rs[i]);
                }
            }
        }
    }
}

/// The errors collected while validating the seam records one by one.
pub struct ValidationRun {
    schema_errors: Vec<String>,
    policy_errors: Vec<String>,
    reports: Ghost<Seq<FileReport>>,
}

impl ValidationRun {
    /// What each file checked so far came to, in order.
    pub closed spec fn reports(&self) -> Seq<FileReport> {
        self.reports@
    }

    /// The errors kept agree with the reports.
    pub closed spec fn wf(&self) -> bool {
        &&& self.schema_errors.deep_view() == run_schema_errors(self.reports@)
        &&& self.policy_errors.deep_view() == run_policy_errors(self.reports@)
    }

    /// The schema errors so far, each as `"{file}: {error}"`.
    pub open spec fn schema_errors(&self) -> Seq<Seq<char>> {
        run_schema_errors(self.reports())
    }

    /// The policy errors so far, each as `"{file}: {error}"`.
    pub open spec fn policy_errors(&self) -> Seq<Seq<char>> {
        run_policy_errors(self.reports())
    }

    /// A run with no file checked yet.
    pub fn new() -> (r: ValidationRun)
        ensures
            r.wf(),
            r.reports() == Seq::<FileReport>::empty(),
    {
        let ghost none: Seq<FileReport> = seq![];
        let r = ValidationRun { schema_errors: Vec::new(), policy_errors: Vec::new(), reports: Ghost(none) };
        assert(r.schema_errors.deep_view() =~= Seq::<Seq<char>>::empty());
        assert(r.policy_errors.deep_view() =~= Seq::<Seq<char>>::empty());
        r
    }

    /// Records what the schema reported for `file`; the answer is whether
    /// the record passed, that is, whether it goes on to the policy checks.
    pub fn record_schema_result(&mut self, file: &str, violations: &Vec<String>) -> (passed: bool)
        requires
            old(self).wf(),
        ensures
            final(self).wf(),
            final(self).reports() == old(self).reports().push((file@, violations.deep_view(), seq![])),
            final(self).schema_errors() == old(self).schema_errors() + prefixed(file@, violations.deep_view()),
            final(self).policy_errors() == old(self).policy_errors(),
            passed == (violations.len() == 0),
    {
        let ghost r: FileReport = (file@, violations.deep_view(), seq![]);
        let ghost rs = self.reports@.push(r);
        assert(rs.drop_last() =~= self.reports@);
        assert(prefixed(file@, seq![]) =~= Seq::<Seq<char>>::empty());
        assert(run_policy_errors(rs) =~= run_policy_errors(self.reports@));
        push_prefixed(&mut self.schema_errors, file, violations);
        self.reports = Ghost(rs);
        violations.len() == 0
    }

    /// Validates the document of `file` against the schema and records the
    /// result; the answer is whether the record passed, that is, whether the
    /// schema reported no violation. Where the schema fixes the order of its
    /// errors, the violations recorded are exactly the named ones.
    pub fn check_schema(&mut self, file: &str, schema: &CompiledSchema, doc: &JsonDoc) -> (passed: bool)
        requires
            old(self).wf(),
            schema.settled(),
        ensures
            final(self).wf(),
            final(self).reports().len() == old(self).reports().len() + 1,
            final(self).reports().drop_last() == old(self).reports(),
            final(self).reports().last().0 == file@,
            final(self).reports().last().2 == Seq::<Seq<char>>::empty(),
            schema.order_fixed() ==> final(self).reports().last().1 == schema_violations(schema@, doc@),
            passed == (final(self).reports().last().1.len() == 0),
            final(self).schema_errors() == old(self).schema_errors() + prefixed(
                file@,
                final(self).reports().last().1,
            ),
            final(self).policy_errors() == old(self).policy_errors(),
    {
        let violations = validation_errors(schema, doc);
        let passed = self.record_schema_result(file, &violations);
        assert(self.reports().drop_last() =~= old(self).reports());
        passed
    }

    /// Checks the policy of the schema-valid record read from `file`, the
    /// last file checked, and records its errors. `artifact_present` and
    /// `vector_present` say which referenced paths exist under the root.
    pub fn check_policy(
        &mut self,
        file: &str,
        record: &SeamRecord,
        artifact_present: &Vec<bool>,
        vector_present: &Vec<bool>,
    )
        requires
            old(self).wf(),
            old(self).reports().len() > 0,
            old(self).reports().last().0 == file@,
            old(self).reports().last().1.len() == 0,
            old(self).reports().last().2.len() == 0,
            artifact_present.len() == record.contract_artifacts.len(),
            vector_present.len() == record.test_vectors.len(),
        ensures
            final(self).wf(),
            final(self).reports() == old(self).reports().update(
                old(self).reports().len() - 1,
                (file@, seq![], policy_errors(*record, file@, artifact_present@, vector_present@)),
            ),
            final(self).policy_errors() == old(self).policy_errors() + prefixed(
                file@,
                policy_errors(*record, file@, artifact_present@, vector_present@),
            ),
            final(self).schema_errors() == old(self).schema_errors(),
    {
        let errs = policy_checks(record, file, artifact_present, vector_present);
        let ghost old_rs = self.reports@;
        let ghost last = (file@, Seq::<Seq<char>>::empty(), errs.deep_view());
        let ghost rs = old_rs.update(old_rs.len() - 1, last);
        assert(rs.drop_last() =~= old_rs.drop_last());
        assert(prefixed(file@, seq![]) =~= Seq::<Seq<char>>::empty());
        assert(old_rs.last().1 =~= Seq::<Seq<char>>::empty());
        assert(run_policy_errors(old_rs) =~= run_policy_errors(old_rs.drop_last()));
        assert(run_schema_errors(rs) =~= run_schema_errors(old_rs));
        push_prefixed(&mut self.policy_errors, file, &errs);
        self.reports = Ghost(rs);
    }

    /// How the validation ended: schema errors come first, then policy errors; with
    /// neither, the records are valid.
    pub fn finish(self) -> (r: ValidationOutcome)
        requires
            self.wf(),
        ensures
            r is Valid <==> self.schema_errors().len() == 0 && self.policy_errors().len() == 0,
            r is SchemaInvalid <==> self.schema_errors().len() > 0,
            r is PolicyViolated <==> self.schema_errors().len() == 0 && self.policy_errors().len() > 0,
            r matches ValidationOutcome::SchemaInvalid(v) ==> v.deep_view() == self.schema_errors(),
            r matches ValidationOutcome::PolicyViolated(v) ==> v.deep_view() == self.policy_errors(),
    {
        if self.schema_errors.len() > 0 {
            ValidationOutcome::SchemaInvalid(self.schema_errors)
        } else if self.policy_errors.len() > 0 {
            ValidationOutcome::PolicyViolated(self.policy_errors)
        } else {
            ValidationOutcome::Valid
        }
    }
}

/// The process exit status of an outcome.
pub open spec fn spec_exit_code(o: ValidationOutcome) -> i32 {
    match o {
        ValidationOutcome::Valid => 0,
        ValidationOutcome::SchemaInvalid(_) => 2,
        ValidationOutcome::PolicyViolated(_) => 3,
    }
}

/// The lines an outcome is reported with: a heading and one `- {error}`
/// line per error, or the success line.
pub open spec fn report_lines(o: ValidationOutcome) -> Seq<Seq<char>> {
    match o {
        ValidationOutcome::Valid => seq!["OK: seam records validated"@],
        ValidationOutcome::SchemaInvalid(v) => seq!["Schema validation errors:"@] + bulleted(v.deep_view()),
        ValidationOutcome::PolicyViolated(v) => seq!["Policy errors:"@] + bulleted(v.deep_view()),
    }
}

/// Each error as a `- ` list item.
pub open spec fn bulleted(errs: Seq<Seq<char>>) -> Seq<Seq<char>> {
    Seq::new(errs.len(), |i: int| "- "@ + errs[i])
}

/// A report lists every error: a failed run is reported by its heading and
/// then one `- {error}` line per collected error, in order; a valid run by
/// the success line alone.
pub proof fn lemma_report_lists_every_error(o: ValidationOutcome)
    ensures
        o is Valid ==> report_lines(o) == seq!["OK: seam records validated"@],
        o matches ValidationOutcome::SchemaInvalid(v) ==> report_lines(o).len() == v.deep_view().len() + 1
            && report_lines(o)[0] == "Schema validation errors:"@ && forall|k: int|
            0 <= k < v.deep_view().len() ==> #[trigger] report_lines(o)[k + 1] == "- "@ + v.deep_view()[k],
        o matches ValidationOutcome::PolicyViolated(v) ==> report_lines(o).len() == v.deep_view().len() + 1
            && report_lines(o)[0] == "Policy errors:"@ && forall|k: int|
            0 <= k < v.deep_view().len() ==> #[trigger] report_lines(o)[k + 1] == "- "@ + v.deep_view()[k],
{
}

/// A valid run exits with status 0, one with schema errors with 2, one with
/// only policy errors with 3.
pub proof fn lemma_exit_codes(o: ValidationOutcome)
    ensures
        o is Valid <==> spec_exit_code(o) == 0,
        o is SchemaInvalid <==> spec_exit_code(o) == 2,
        o is PolicyViolated <==> spec_exit_code(o) == 3,
{
}

fn bullet_lines(heading: &str, errs: &Vec<String>) -> (r: Vec<String>)
    ensures
        r.deep_view() == seq![heading@] + bulleted(errs.deep_view()),
{
    let ghost ev = errs.deep_view();
    let mut out: Vec<String> = Vec::new();
    push_text(&mut out, String::from_str(heading));
    assert(out.deep_view() =~= seq![heading@]);
    let n = errs.len();
    let mut i: usize = 0;
    while i < n
        invariant
            n == errs.len(),
            ev == errs.deep_view(),
            i <= n,
            out.deep_view() == seq![heading@] + bulleted(ev.take(i as int)),
        decreases n - i,
    {
        let mut line = String::from_str("- ");
        line.append(errs[i].as_str());
        push_text(&mut out, line);
        proof {
            assert(bulleted(ev.take(i + 1)) =~= bulleted(ev.take(i as int)).push("- "@ + ev[i as int]));
        }
        i = i + 1;
    }
    assert(ev.take(n as int) =~= ev);
    out
}

impl ValidationOutcome {
    /// The process exit status: 0 when valid, 2 for schema errors, 3 for
    /// policy errors.
    pub fn exit_code(&self) -> (r: i32)
        ensures
            r == spec_exit_code(*self),
    {
        match self {
            ValidationOutcome::Valid => 0,
            ValidationOutcome::SchemaInvalid(_) => 2,
            ValidationOutcome::PolicyViolated(_) => 3,
        }
    }

    /// The lines the outcome is reported with.
    pub fn lines(&self) -> (r: Vec<String>)
        ensures
            r.deep_view() == report_lines(*self),
    {
        match self {
            ValidationOutcome::Valid => {
                let mut out: Vec<String> = Vec::new();
                push_text(&mut out, String::from_str("OK: seam records validated"));
                assert(out.deep_view() =~= seq!["OK: seam records validated"@]);
                out
            },
            ValidationOutcome::SchemaInvalid(v) => bullet_lines("Schema validation errors:", v),
            ValidationOutcome::PolicyViolated(v) => bullet_lines("Policy errors:", v),
        }
    }
}

} // verus!
