//! The policy rules that every schema-valid seam record must meet.
use vstd::prelude::*;
use crate::model::SeamRecord;
use crate::text::{is_blank, trims_to_empty, concat2, concat3};

verus! {

/// `seq![msg]` when `cond` holds, else nothing.
pub open spec fn error_if(cond: bool, msg: Seq<char>) -> Seq<Seq<char>> {
    if cond {
        seq![msg]
    } else {
        seq![]
    }
}

/// The error for a review check whose status is blank.
pub open spec fn status_error(name: Seq<char>, status: Seq<char>) -> Seq<Seq<char>> {
    error_if(is_blank(status), name + ".status must be non-empty"@)
}

/// The message for a referenced path that does not exist.
pub open spec fn missing_message(label: Seq<char>, path: Seq<char>, from: Seq<char>) -> Seq<char> {
    label + path + " (from "@ + from + ")"@
}

/// The errors for the first `n` referenced paths, in order: one for each
/// path that is not present.
pub open spec fn missing_path_errors(
    paths: Seq<Seq<char>>,
    present: Seq<bool>,
    label: Seq<char>,
    from: Seq<char>,
    n: int,
) -> Seq<Seq<char>>
    decreases n,
{
    if n <= 0 {
        seq![]
    } else {
        missing_path_errors(paths, present, label, from, n - 1) + error_if(
            !present[n - 1],
            missing_message(label, paths[n - 1], from),
        )
    }
}

/// The paths of the record's contract artifacts.
pub open spec fn artifact_paths(rec: SeamRecord) -> Seq<Seq<char>> {
    Seq::new(rec.contract_artifacts@.len(), |i: int| rec.contract_artifacts@[i].path@)
}

/// The paths of the record's test vectors.
pub open spec fn vector_paths(rec: SeamRecord) -> Seq<Seq<char>> {
    rec.test_vectors.deep_view()
}

/// Label of the error for a missing contract artifact.
pub open spec fn artifact_label() -> Seq<char> {
    "missing contract_artifact path: "@
}

/// Label of the error for a missing test vector.
pub open spec fn vector_label() -> Seq<char> {
    "missing test_vectors path: "@
}

/// Every policy error of `rec`, read from `from`, in the order the rules
/// are checked. `artifact_present[i]` says whether the i-th contract
/// artifact exists under the root, `vector_present[i]` the same for the
/// i-th test vector.
pub open spec fn policy_errors(
    rec: SeamRecord,
    from: Seq<char>,
    artifact_present: Seq<bool>,
    vector_present: Seq<bool>,
) -> Seq<Seq<char>> {
    error_if(rec.owners@.len() == 0, "owners must be non-empty"@)
        + error_if(rec.compat_policy.rules@.len() == 0, "compat_policy.rules must be non-empty"@)
        + error_if(
        rec.compat_policy.deprecation_window_days < 1,
        "compat_policy.deprecation_window_days must be >= 1"@,
    ) + status_error("checks.conformance"@, rec.checks.conformance.status@) + status_error(
        "checks.no_hidden_channels"@,
        rec.checks.no_hidden_channels.status@,
    ) + status_error("checks.evolution"@, rec.checks.evolution.status@) + missing_path_errors(
        artifact_paths(rec),
        artifact_present,
        artifact_label(),
        from,
        artifact_paths(rec).len() as int,
    ) + missing_path_errors(
        vector_paths(rec),
        vector_present,
        vector_label(),
        from,
        vector_paths(rec).len() as int,
    )
}

/// The record meets every policy rule.
pub open spec fn meets_policy(
    rec: SeamRecord,
    artifact_present: Seq<bool>,
    vector_present: Seq<bool>,
) -> bool {
    &&& rec.owners@.len() > 0
    &&& rec.compat_policy.rules@.len() > 0
    &&& rec.compat_policy.deprecation_window_days >= 1
    &&& !is_blank(rec.checks.conformance.status@)
    &&& !is_blank(rec.checks.no_hidden_channels.status@)
    &&& !is_blank(rec.checks.evolution.status@)
    &&& forall|i: int| 0 <= i < artifact_present.len() ==> #[trigger] artifact_present[i]
    &&& forall|i: int| 0 <= i < vector_present.len() ==> #[trigger] vector_present[i]
}

proof fn lemma_missing_none(
    paths: Seq<Seq<char>>,
    present: Seq<bool>,
    label: Seq<char>,
    from: Seq<char>,
    n: int,
)
    requires
        0 <= n <= present.len(),
    ensures
        missing_path_errors(paths, present, label, from, n).len() == 0 <==> forall|i: int|
            0 <= i < n ==> #[trigger] present[i],
    decreases n,
{
    if n > 0 {
        lemma_missing_none(paths, present, label, from, n - 1);
    }
}

/// A record has no policy error exactly when it meets every policy rule.
pub proof fn lemma_no_errors_iff_meets_policy(
    rec: SeamRecord,
    from: Seq<char>,
    artifact_present: Seq<bool>,
    vector_present: Seq<bool>,
)
    requires
        artifact_present.len() == rec.contract_artifacts@.len(),
        vector_present.len() == rec.test_vectors@.len(),
    ensures
        policy_errors(rec, from, artifact_present, vector_present).len() == 0 <==> meets_policy(
            rec,
            artifact_present,
            vector_present,
        ),
{
    lemma_missing_none(
        artifact_paths(rec),
        artifact_present,
        artifact_label(),
        from,
        artifact_present.len() as int,
    );
    lemma_missing_none(
        vector_paths(rec),
        vector_present,
        vector_label(),
        from,
        vector_present.len() as int,
    );
}

/// The errors for the first `n` referenced paths are, in path order, one
/// message `{label}{path} (from {from})` for each path that is not present
/// and nothing for a present one.
pub proof fn lemma_missing_path_errors(
    paths: Seq<Seq<char>>,
    present: Seq<bool>,
    label: Seq<char>,
    from: Seq<char>,
    n: int,
)
    requires
        0 <= n <= paths.len(),
        n <= present.len(),
    ensures
        missing_path_errors(paths, present, label, from, n) == Seq::new(
            n as nat,
            |i: int|
                if present[i] {
                    Seq::<Seq<char>>::empty()
                } else {
                    seq![label + paths[i] + " (from "@ + from + ")"@]
                },
        ).flatten(),
    decreases n,
{
    let f = |i: int|
        if present[i] {
            Seq::<Seq<char>>::empty()
        } else {
            seq![label + paths[i] + " (from "@ + from + ")"@]
        };
    if n == 0 {
        assert(Seq::new(0, f) =~= Seq::<Seq<Seq<char>>>::empty());
    } else {
        lemma_missing_path_errors(paths, present, label, from, n - 1);
        assert(Seq::new(n as nat, f) =~= Seq::new((n - 1) as nat, f).push(f(n - 1)));
        Seq::new((n - 1) as nat, f).lemma_flatten_push(f(n - 1));
        assert(error_if(!present[n - 1], missing_message(label, paths[n - 1], from)) =~= f(n - 1));
    }
}

/// The policy errors of a record, given which referenced paths exist, are
/// those it has when every path exists, followed by one message for each
/// missing contract artifact and then one for each missing test vector, in
/// the order the record lists them.
pub proof fn lemma_policy_errors_list_every_missing_path(
    rec: SeamRecord,
    from: Seq<char>,
    artifact_present: Seq<bool>,
    vector_present: Seq<bool>,
)
    requires
        artifact_present.len() == rec.contract_artifacts@.len(),
        vector_present.len() == rec.test_vectors@.len(),
    ensures
        policy_errors(rec, from, artifact_present, vector_present) == policy_errors(
            rec,
            from,
            Seq::new(artifact_present.len(), |i: int| true),
            Seq::new(vector_present.len(), |i: int| true),
        ) + Seq::new(
            artifact_present.len(),
            |i: int|
                if artifact_present[i] {
                    Seq::<Seq<char>>::empty()
                } else {
                    seq![
                        "missing contract_artifact path: "@ + rec.contract_artifacts@[i].path@ + " (from "@ + from
                            + ")"@,
                    ]
                },
        ).flatten() + Seq::new(
            vector_present.len(),
            |i: int|
                if vector_present[i] {
                    Seq::<Seq<char>>::empty()
                } else {
                    seq!["missing test_vectors path: "@ + rec.test_vectors@[i]@ + " (from "@ + from + ")"@]
                },
        ).flatten(),
{
    let na = artifact_present.len();
    let nv = vector_present.len();
    let ta = Seq::new(na, |i: int| true);
    let tv = Seq::new(nv, |i: int| true);
    let ap = artifact_paths(rec);
    let vp = vector_paths(rec);
    lemma_missing_path_errors(ap, artifact_present, artifact_label(), from, na as int);
    lemma_missing_path_errors(vp, vector_present, vector_label(), from, nv as int);
    lemma_missing_none(ap, ta, artifact_label(), from, na as int);
    lemma_missing_none(vp, tv, vector_label(), from, nv as int);
    let fa = |i: int|
        if artifact_present[i] {
            Seq::<Seq<char>>::empty()
        } else {
            seq!["missing contract_artifact path: "@ + rec.contract_artifacts@[i].path@ + " (from "@ + from + ")"@]
        };
    let ga = |i: int|
        if artifact_present[i] {
            Seq::<Seq<char>>::empty()
        } else {
            seq![artifact_label() + ap[i] + " (from "@ + from + ")"@]
        };
    assert(Seq::new(na, fa) =~= Seq::new(na, ga));
    let fv = |i: int|
        if vector_present[i] {
            Seq::<Seq<char>>::empty()
        } else {
            seq!["missing test_vectors path: "@ + rec.test_vectors@[i]@ + " (from "@ + from + ")"@]
        };
    let gv = |i: int|
        if vector_present[i] {
            Seq::<Seq<char>>::empty()
        } else {
            seq![vector_label() + vp[i] + " (from "@ + from + ")"@]
        };
    assert forall|i: int| 0 <= i < nv implies vp[i] == rec.test_vectors@[i]@ by {}
    assert(Seq::new(nv, fv) =~= Seq::new(nv, gv));
    let base = policy_errors(rec, from, ta, tv);
    assert(missing_path_errors(ap, ta, artifact_label(), from, na as int) =~= Seq::<Seq<char>>::empty());
    assert(missing_path_errors(vp, tv, vector_label(), from, nv as int) =~= Seq::<Seq<char>>::empty());
    assert(policy_errors(rec, from, artifact_present, vector_present) =~= base + Seq::new(na, fa).flatten()
        + Seq::new(nv, fv).flatten());
}

proof fn lemma_missing_count(paths: Seq<Seq<char>>, present: Seq<bool>, label: Seq<char>, from: Seq<char>, n: int)
    requires
        0 <= n <= present.len(),
    ensures
        missing_path_errors(paths, present, label, from, n).len() == present.take(n).filter(|b: bool| !b).len(),
    decreases n,
{
    reveal(Seq::filter);
    if n > 0 {
        lemma_missing_count(paths, present, label, from, n - 1);
        assert(present.take(n).drop_last() =~= present.take(n - 1));
        assert(present.take(n).last() == present[n - 1]);
    }
}

/// A record gets one policy error per broken rule (owners, compat rules,
/// deprecation window, each blank review status) and one per referenced
/// path that is missing: as many errors as that, no fewer.
pub proof fn lemma_policy_error_count(
    rec: SeamRecord,
    from: Seq<char>,
    artifact_present: Seq<bool>,
    vector_present: Seq<bool>,
)
    requires
        artifact_present.len() == rec.contract_artifacts@.len(),
        vector_present.len() == rec.test_vectors@.len(),
    ensures
        policy_errors(rec, from, artifact_present, vector_present).len() == (if rec.owners@.len() == 0 {
            1int
        } else {
            0
        }) + (if rec.compat_policy.rules@.len() == 0 {
            1int
        } else {
            0
        }) + (if rec.compat_policy.deprecation_window_days < 1 {
            1int
        } else {
            0
        }) + (if is_blank(rec.checks.conformance.status@) {
            1int
        } else {
            0
        }) + (if is_blank(rec.checks.no_hidden_channels.status@) {
            1int
        } else {
            0
        }) + (if is_blank(rec.checks.evolution.status@) {
            1int
        } else {
            0
        }) + artifact_present.filter(|b: bool| !b).len() + vector_present.filter(|b: bool| !b).len(),
{
    let na = artifact_present.len() as int;
    let nv = vector_present.len() as int;
    lemma_missing_count(artifact_paths(rec), artifact_present, artifact_label(), from, na);
    lemma_missing_count(vector_paths(rec), vector_present, vector_label(), from, nv);
    assert(artifact_present.take(na) =~= artifact_present);
    assert(vector_present.take(nv) =~= vector_present);
}

/// Appends `s` to `v`.
pub fn push_text(v: &mut Vec<String>, s: String)
    ensures
        final(v).deep_view() == old(v).deep_view().push(s@),
{
    v.push(s);
    assert(final(v).deep_view() =~= old(v).deep_view().push(s@)) by {
        assert(v@ == old(v)@.push(s));
    }
}

fn push_if(v: &mut Vec<String>, cond: bool, msg: &str)
    ensures
        final(v).deep_view() == old(v).deep_view() + error_if(cond, msg@),
{
    if cond {
        push_text(v, String::from_str(msg));
    }
    assert(final(v).deep_view() =~= old(v).deep_view() + error_if(cond, msg@));
}

fn push_status_error(v: &mut Vec<String>, name: &str, status: &str)
    ensures
        final(v).deep_view() == old(v).deep_view() + status_error(name@, status@),
{
    if trims_to_empty(status) {
        push_text(v, concat2(name, ".status must be non-empty"));
    }
    assert(final(v).deep_view() =~= old(v).deep_view() + status_error(name@, status@));
}

/// The policy errors of `record`, read from `record_path`.
///
/// `artifact_present[i]` tells whether the i-th contract artifact path exists
/// under the root that is being validated; `vector_present[i]` tells the same
/// of the i-th test vector path.
pub fn policy_checks(
    record: &SeamRecord,
    record_path: &str,
    artifact_present: &Vec<bool>,
    vector_present: &Vec<bool>,
) -> (errs: Vec<String>)
    requires
        artifact_present.len() == record.contract_artifacts.len(),
        vector_present.len() == record.test_vectors.len(),
    ensures
        errs.deep_view() == policy_errors(
            *record,
            record_path@,
            artifact_present@,
            vector_present@,
        ),
{
    let mut errs: Vec<String> = Vec::new();
    assert(errs.deep_view() =~= Seq::<Seq<char>>::empty());
    push_if(&mut errs, record.owners.len() == 0, "owners must be non-empty");
    push_if(&mut errs, record.compat_policy.rules.len() == 0, "compat_policy.rules must be non-empty");
    push_if(
        &mut errs,
        record.compat_policy.deprecation_window_days < 1,
        "compat_policy.deprecation_window_days must be >= 1",
    );
    push_status_error(&mut errs, "checks.conformance", record.checks.conformance.status.as_str());
    push_status_error(
        &mut errs,
        "checks.no_hidden_channels",
        record.checks.no_hidden_channels.status.as_str(),
    );
    push_status_error(&mut errs, "checks.evolution", record.checks.evolution.status.as_str());

    let ghost base = errs.deep_view();
    let ghost apaths = artifact_paths(*record);
    let n = record.contract_artifacts.len();
    let mut i: usize = 0;
    while i < n
        invariant
            n == record.contract_artifacts@.len(),
            n == artifact_present@.len(),
            apaths == artifact_paths(*record),
            i <= n,
            errs.deep_view() == base + missing_path_errors(
                apaths,
                artifact_present@,
                artifact_label(),
                record_path@,
                i as int,
            ),
        decreases n - i,
    {
        if !artifact_present[i] {
            let msg = concat3(
                "missing contract_artifact path: ",
                record.contract_artifacts[i].path.as_str(),
                " (from ",
            );
            let msg = concat3(msg.as_str(), record_path, ")");
            push_text(&mut errs, msg);
        }
        i = i + 1;
        assert(errs.deep_view() =~= base + missing_path_errors(
            apaths,
            artifact_present@,
            artifact_label(),
            record_path@,
            i as int,
        ));
    }

    let ghost base2 = errs.deep_view();
    let ghost vpaths = vector_paths(*record);
    let m = record.test_vectors.len();
    let mut j: usize = 0;
    while j < m
        invariant
            m == record.test_vectors@.len(),
            m == vector_present@.len(),
            vpaths == vector_paths(*record),
            j <= m,
            errs.deep_view() == base2 + missing_path_errors(
                vpaths,
                vector_present@,
                vector_label(),
                record_path@,
                j as int,
            ),
        decreases m - j,
    {
        if !vector_present[j] {
            let msg = concat3("missing test_vectors path: ", record.test_vectors[j].as_str(), " (from ");
            let msg = concat3(msg.as_str(), record_path, ")");
            push_text(&mut errs, msg);
        }
        j = j + 1;
        assert(errs.deep_view() =~= base2 + missing_path_errors(
            vpaths,
            vector_present@,
            vector_label(),
            record_path@,
            j as int,
        ));
    }
    errs
}

} // verus!
