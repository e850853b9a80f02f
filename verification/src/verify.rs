//! Checking a generated CLI's manifest against the spec it was printed from.
use vstd::prelude::*;

use crate::spec::{operations_of, records_view, OpenApiSpec, OperationRecord};
use crate::text::{join, join_strings, str_eq, views};

verus! {

/// An operation a generated CLI implements.
#[derive(Debug, Clone)]
pub struct ManifestOperation {
    pub method: String,
    pub path: String,
}

/// What the manifest of a generated CLI records.
#[derive(Debug, Clone)]
pub struct GeneratedManifest {
    /// The directory of the generated crate, relative to the output directory.
    pub generated_crate: String,
    pub operation_count: usize,
    pub base_url: String,
    pub operations: Vec<ManifestOperation>,
}

/// The outcome of a successful check.
#[derive(Debug, Clone)]
pub struct VerifyReport {
    pub manifest_path: String,
    pub crate_dir: String,
    pub operation_count: usize,
    pub missing_in_spec: Vec<String>,
    pub cargo_check_ok: bool,
}

/// Why a check failed.
#[derive(Debug, PartialEq, Eq)]
pub enum VerifyFailure {
    /// `cargo check` failed on the generated crate.
    CargoCheckFailed,
    /// Operations of the manifest that the spec does not declare, as
    /// `METHOD path`, joined with `, `.
    MissingOperations(String),
}

/// Whether the spec's operations include one with this method and path.
pub open spec fn declares(ops: Seq<crate::spec::OperationRecordView>, method: Seq<char>, path: Seq<char>) -> bool {
    exists|i: int| 0 <= i < ops.len() && #[trigger] ops[i].method == method && ops[i].path == path
}

/// `METHOD path`.
pub open spec fn operation_label(op: ManifestOperation) -> Seq<char> {
    op.method@ + " "@ + op.path@
}

/// The labels of the manifest operations the spec does not declare, in
/// manifest order.
pub open spec fn undeclared(ops: Seq<ManifestOperation>, declared: Seq<crate::spec::OperationRecordView>) -> Seq<Seq<char>>
    decreases ops.len(),
{
    if ops.len() == 0 {
        Seq::empty()
    } else {
        let rest = undeclared(ops.drop_last(), declared);
        if declares(declared, ops.last().method@, ops.last().path@) {
            rest
        } else {
            rest.push(operation_label(ops.last()))
        }
    }
}

/// Nothing is missing exactly when every manifest operation is declared.
pub proof fn lemma_undeclared_empty(ops: Seq<ManifestOperation>, declared: Seq<crate::spec::OperationRecordView>)
    ensures
        undeclared(ops, declared).len() == 0 <==> forall|i: int|
            0 <= i < ops.len() ==> declares(declared, #[trigger] ops[i].method@, ops[i].path@),
    decreases ops.len(),
{
    if ops.len() > 0 {
        lemma_undeclared_empty(ops.drop_last(), declared);
        assert forall|i: int| 0 <= i < ops.len() - 1 implies ops.drop_last()[i] == ops[i] by {}
        if undeclared(ops, declared).len() == 0 {
            assert forall|i: int| 0 <= i < ops.len() implies declares(declared, #[trigger] ops[i].method@, ops[i].path@) by {
                if i < ops.len() - 1 {
                    assert(ops.drop_last()[i] == ops[i]);
                }
            }
        }
        if forall|i: int| 0 <= i < ops.len() ==> declares(declared, #[trigger] ops[i].method@, ops[i].path@) {
            assert(declares(declared, ops[ops.len() - 1].method@, ops[ops.len() - 1].path@));
            assert forall|i: int| 0 <= i < ops.drop_last().len() implies declares(declared, #[trigger] ops.drop_last()[i].method@, ops.drop_last()[i].path@) by {
                assert(ops.drop_last()[i] == ops[i]);
                assert(declares(declared, ops[i].method@, ops[i].path@));
            }
        }
    }
}

fn is_declared(declared: &Vec<OperationRecord>, method: &String, path: &String) -> (r: bool)
    ensures
        r == declares(records_view(declared@), method@, path@),
{
    let ghost ops = records_view(declared@);
    let mut i: usize = 0;
    while i < declared.len()
        invariant
            ops == records_view(declared@),
            i <= declared.len(),
            forall|j: int| 0 <= j < i ==> !(#[trigger] ops[j].method == method@ && ops[j].path == path@),
        decreases declared.len() - i,
    {
        assert(ops[i as int] == declared@[i as int]@);
        if str_eq(declared[i].method.as_str(), method.as_str()) && str_eq(declared[i].path.as_str(), path.as_str()) {
            assert(ops[i as int].method == method@ && ops[i as int].path == path@);
            return true;
        }
        i = i + 1;
    }
    false
}

/// The manifest operations the spec's operations do not include, as
/// `METHOD path` labels in manifest order.
pub fn missing_operations(manifest: &GeneratedManifest, declared: &Vec<OperationRecord>) -> (missing: Vec<String>)
    ensures
        views(missing@) == undeclared(manifest.operations@, records_view(declared@)),
        missing@.len() == 0 <==> forall|i: int| 0 <= i < manifest.operations@.len() ==> declares(
            records_view(declared@),
            #[trigger] manifest.operations@[i].method@,
            manifest.operations@[i].path@,
        ),
{
    let ghost ops = manifest.operations@;
    let mut missing: Vec<String> = Vec::new();
    let mut i: usize = 0;
    while i < manifest.operations.len()
        invariant
            ops == manifest.operations@,
            i <= ops.len(),
            views(missing@) == undeclared(ops.take(i as int), records_view(declared@)),
        decreases ops.len() - i,
    {
        let op = &manifest.operations[i];
        assert(ops.take(i + 1).drop_last() =~= ops.take(i as int));
        assert(ops.take(i + 1).last() == *op);
        if !is_declared(declared, &op.method, &op.path) {
            let mut label = op.method.clone();
            label.append(" ");
            label.append(op.path.as_str());
            let ghost before = views(missing@);
            let ghost lv = label@;
            missing.push(label);
            assert(views(missing@) =~= before.push(lv));
        }
        i = i + 1;
    }
    assert(ops.take(ops.len() as int) =~= ops);
    proof {
        lemma_undeclared_empty(ops, records_view(declared@));
    }
    missing
}

/// The manifest operations the spec does not declare.
pub fn manifest_operations_missing_from_spec(manifest: &GeneratedManifest, spec: &OpenApiSpec) -> (missing: Vec<String>)
    ensures
        views(missing@) == undeclared(manifest.operations@, operations_of(*spec)),
{
    let declared = spec.operations();
    missing_operations(manifest, &declared)
}

/// The result of a check, given the path of the manifest, the directory of
/// the generated crate, the missing operations and whether `cargo check`
/// passed: a failed `cargo check` is reported first, missing operations next.
pub fn verify_outcome(
    manifest: &GeneratedManifest,
    manifest_path: String,
    crate_dir: String,
    missing: Vec<String>,
    cargo_check_ok: bool,
) -> (r: Result<VerifyReport, VerifyFailure>)
    ensures
        !cargo_check_ok ==> r == Err::<VerifyReport, VerifyFailure>(VerifyFailure::CargoCheckFailed),
        cargo_check_ok && missing@.len() > 0 ==> (r matches Err(VerifyFailure::MissingOperations(m))
            && m@ == join(views(missing@), ", "@)),
        cargo_check_ok && missing@.len() == 0 ==> (r matches Ok(report) && report.manifest_path
            == manifest_path && report.crate_dir == crate_dir && report.operation_count
            == manifest.operation_count && report.missing_in_spec@.len() == 0
            && report.cargo_check_ok),
{
    if !cargo_check_ok {
        return Err(VerifyFailure::CargoCheckFailed);
    }
    if missing.len() > 0 {
        return Err(VerifyFailure::MissingOperations(join_strings(&missing, ", ")));
    }
    Ok(
        VerifyReport {
            manifest_path,
            crate_dir,
            operation_count: manifest.operation_count,
            missing_in_spec: missing,
            cargo_check_ok,
        },
    )
}

/// How many operations the manifest implements and how many the spec
/// declares.
pub fn score_counts(manifest: &GeneratedManifest, spec: &OpenApiSpec) -> (counts: (usize, usize))
    ensures
        counts.0 == manifest.operation_count,
        counts.1 == operations_of(*spec).len(),
{
    let ops = spec.operations();
    (manifest.operation_count, ops.len())
}

} // verus!
