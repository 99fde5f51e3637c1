//! Renamings that must not be carried out, found before any file is
//! touched: no two files may get the same name, and no file may take the
//! name of a file that is already there.

use crate::RenameOperation;
use crate::RenameOperationView;
use crate::failures::Failure;
use crate::failures::FailureView;
use crate::operation_views;
use crate::text::str_eq;
use vstd::prelude::*;
use vstd::string::StringExecFns;

verus! {

/// The views of the names in `names`.
pub open spec fn name_views(names: Seq<String>) -> Seq<Seq<char>> {
    Seq::new(names.len(), |i: int| names[i]@)
}

/// An operation before the `i`-th has the same target.
pub open spec fn is_duplicate(operations: Seq<RenameOperationView>, i: int) -> bool {
    exists|j: int| 0 <= j < i && (#[trigger] operations[j]).to == operations[i].to
}

/// What is wrong with the `i`-th operation, where `target_exists` says
/// whether a file with the name of its target is there: an earlier
/// operation has the same target, or the target is another name than the
/// source and exists.
pub open spec fn fault_of(
    operations: Seq<RenameOperationView>,
    i: int,
    target_exists: bool,
) -> Option<FailureView> {
    if !(0 <= i < operations.len()) {
        None
    } else if is_duplicate(operations, i) {
        Some(
            FailureView::File {
                file_name: operations[i].to,
                description: "Duplicate rename"@,
                cause: Seq::empty(),
            },
        )
    } else if operations[i].from != operations[i].to && target_exists {
        Some(
            FailureView::File {
                file_name: operations[i].to,
                description: "File exists on file system"@,
                cause: Seq::empty(),
            },
        )
    } else {
        None
    }
}

/// What is wrong with the `i`-th operation, the names `existing` being
/// those of the files that are there.
pub open spec fn fault_at(
    operations: Seq<RenameOperationView>,
    existing: Seq<Seq<char>>,
    i: int,
) -> Option<FailureView> {
    fault_of(operations, i, existing.contains(operations[i].to))
}

/// The failure in `r`, if it is one.
pub open spec fn fault_view(r: Result<(), Failure>) -> Option<FailureView> {
    match r {
        Ok(_) => None,
        Err(failure) => Some(failure@),
    }
}

/// Whether `name` occurs in `names`.
fn is_listed(names: &Vec<String>, name: &str) -> (r: bool)
    ensures
        r == name_views(names@).contains(name@),
{
    let mut i: usize = 0;
    while i < names.len()
        invariant
            i <= names@.len(),
            forall|j: int| 0 <= j < i ==> name_views(names@)[j] != name@,
        decreases names@.len() - i,
    {
        if str_eq(names[i].as_str(), name) {
            assert(name_views(names@)[i as int] == name@);
            return true;
        }
        i += 1;
    }
    false
}

/// Whether an operation before the `i`-th has the same target.
fn has_earlier_target(operations: &Vec<RenameOperation>, i: usize) -> (r: bool)
    requires
        i < operations@.len(),
    ensures
        r == is_duplicate(operation_views(operations@), i as int),
{
    let target = operations[i].to.as_str();
    let mut j: usize = 0;
    while j < i
        invariant
            j <= i,
            i < operations@.len(),
            target@ == operations@[i as int]@.to,
            forall|k: int| 0 <= k < j ==> operation_views(operations@)[k].to != target@,
        decreases i - j,
    {
        if str_eq(operations[j].to.as_str(), target) {
            assert(operation_views(operations@)[j as int].to == target@);
            return true;
        }
        j += 1;
    }
    false
}

/// Checks the `i`-th renaming against those before it and against the
/// files that are there: `target_exists` says whether a file with the
/// name of its target exists. An `i` beyond the last renaming passes.
pub fn verify_operation(operations: &Vec<RenameOperation>, i: usize, target_exists: bool) -> (r:
    Result<(), Failure>)
    ensures
        fault_view(r) == fault_of(operation_views(operations@), i as int, target_exists),
{
    if i >= operations.len() {
        return Ok(());
    }
    let operation = &operations[i];
    if has_earlier_target(operations, i) {
        return Err(
            Failure::file_failure(operation.to.clone(), String::from_str("Duplicate rename")),
        );
    }
    if !str_eq(operation.from.as_str(), operation.to.as_str()) && target_exists {
        return Err(
            Failure::file_failure(
                operation.to.clone(),
                String::from_str("File exists on file system"),
            ),
        );
    }
    Ok(())
}

/// Checks the renamings in their order and fails on the first that is at
/// fault. `existing` holds the names of the files that are there.
pub fn verify_operations(operations: &Vec<RenameOperation>, existing: &Vec<String>) -> (r: Result<
    (),
    Failure,
>)
    ensures
        match r {
            Ok(_) => forall|i: int|
                0 <= i < operations@.len() ==> fault_at(
                    operation_views(operations@),
                    name_views(existing@),
                    i,
                ) is None,
            Err(failure) => exists|i: int|
                0 <= i < operations@.len() && #[trigger] fault_at(
                    operation_views(operations@),
                    name_views(existing@),
                    i,
                ) == Some(failure@) && forall|j: int|
                    0 <= j < i ==> fault_at(
                        operation_views(operations@),
                        name_views(existing@),
                        j,
                    ) is None,
        },
{
    let mut i: usize = 0;
    while i < operations.len()
        invariant
            i <= operations@.len(),
            forall|j: int|
                0 <= j < i ==> fault_at(
                    operation_views(operations@),
                    name_views(existing@),
                    j,
                ) is None,
        decreases operations@.len() - i,
    {
        let listed: bool = is_listed(existing, operations[i].to.as_str());
        match verify_operation(operations, i, listed) {
            Ok(_) => {},
            Err(failure) => {
                assert(fault_at(operation_views(operations@), name_views(existing@), i as int)
                    == Some(failure@));
                return Err(failure);
            },
        }
        i += 1;
    }
    Ok(())
}

} // verus!
