//! The project registry: whether its file can be trusted, and what it lists.

use crate::files::{FileFacts, FileKind};
use crate::path::{absolute, is_absolute, paths_equal, same_path};
use crate::project::{ProjectRecord, RecordView};
use crate::text::{joined, same_text};
use crate::views::{option_view, views};
use vstd::prelude::*;

verus! {

/// The largest registry file: 1 MiB.
pub const REGISTRY_LIMIT_BYTES: usize = 1048576;

/// Why the registry cannot be used.
#[derive(Debug, PartialEq, Eq)]
pub enum RegistryError {
    Read(String),
    Parse(String),
    Validation(String),
}

pub enum RegistryErrorView {
    Read(Seq<char>),
    Parse(Seq<char>),
    Validation(Seq<char>),
}

impl View for RegistryError {
    type V = RegistryErrorView;

    open spec fn view(&self) -> RegistryErrorView {
        match self {
            RegistryError::Read(message) => RegistryErrorView::Read(message@),
            RegistryError::Parse(message) => RegistryErrorView::Parse(message@),
            RegistryError::Validation(message) => RegistryErrorView::Validation(message@),
        }
    }
}

pub open spec fn registry_error_text(error: RegistryErrorView) -> Seq<char> {
    match error {
        RegistryErrorView::Read(message) => "cannot read project registry: "@ + message,
        RegistryErrorView::Parse(message) => "invalid project registry: "@ + message,
        RegistryErrorView::Validation(message) => "invalid project registry: "@ + message,
    }
}

impl RegistryError {
    pub fn message(&self) -> (text: String)
        ensures
            text@ == registry_error_text(self@),
    {
        match self {
            RegistryError::Read(message) => joined("cannot read project registry: ", message.as_str()),
            RegistryError::Parse(message) => joined("invalid project registry: ", message.as_str()),
            RegistryError::Validation(message) => joined("invalid project registry: ", message.as_str()),
        }
    }
}

/// The outcome of a check, by its error.
pub open spec fn refusal(result: Result<(), RegistryError>) -> Option<RegistryErrorView> {
    match result {
        Ok(()) => None,
        Err(error) => Some(error@),
    }
}

pub open spec fn oversized_refusal(size: int) -> Option<RegistryErrorView> {
    if size > REGISTRY_LIMIT_BYTES {
        Some(RegistryErrorView::Validation("project registry exceeds 1048576 bytes"@))
    } else {
        None
    }
}

/// Turns down a registry of more than the allowed size.
pub fn reject_oversized(size: u64) -> (r: Result<(), RegistryError>)
    ensures
        refusal(r) == oversized_refusal(size as int),
{
    if size > REGISTRY_LIMIT_BYTES as u64 {
        Err(RegistryError::Validation("project registry exceeds 1048576 bytes".to_owned()))
    } else {
        Ok(())
    }
}

/// Why the registry's directory cannot be trusted: anyone could put another
/// file in the registry's place.
pub open spec fn directory_refusal(facts: FileFacts) -> Option<RegistryErrorView> {
    if facts.replaceable() {
        Some(RegistryErrorView::Validation("project registry directory must not be writable by everyone"@))
    } else {
        None
    }
}

/// Turns down a directory whose entries anyone can replace.
pub fn check_registry_directory(facts: &FileFacts) -> (r: Result<(), RegistryError>)
    ensures
        refusal(r) == directory_refusal(*facts),
{
    if facts.is_replaceable() {
        Err(
            RegistryError::Validation(
                "project registry directory must not be writable by everyone".to_owned(),
            ),
        )
    } else {
        Ok(())
    }
}

/// Why the registry's file is not opened.
pub open spec fn file_refusal(facts: FileFacts) -> Option<RegistryErrorView> {
    if facts.kind != FileKind::Regular {
        Some(RegistryErrorView::Validation("project registry must be a regular file"@))
    } else if facts.open_to_all() {
        Some(RegistryErrorView::Validation("project registry must not be writable by everyone"@))
    } else {
        oversized_refusal(facts.size as int)
    }
}

/// Accepts a regular file within the size that not everyone can write to.
pub fn check_registry_file(facts: &FileFacts) -> (r: Result<(), RegistryError>)
    ensures
        refusal(r) == file_refusal(*facts),
{
    if facts.kind != FileKind::Regular {
        return Err(RegistryError::Validation("project registry must be a regular file".to_owned()));
    }
    if facts.is_open_to_all() {
        return Err(
            RegistryError::Validation("project registry must not be writable by everyone".to_owned()),
        );
    }
    reject_oversized(facts.size)
}

/// Why the file that was opened is not read.
pub open spec fn opened_refusal(before: FileFacts, after: FileFacts) -> Option<RegistryErrorView> {
    if after.kind != FileKind::Regular || !before.same_file(after) {
        Some(
            RegistryErrorView::Validation(
                "project registry must be the same regular file opened without symlinks"@,
            ),
        )
    } else {
        file_refusal(after)
    }
}

/// Accepts the file that was opened if it is the one that was checked.
pub fn check_opened_registry(before: &FileFacts, after: &FileFacts) -> (r: Result<(), RegistryError>)
    ensures
        refusal(r) == opened_refusal(*before, *after),
{
    if after.kind != FileKind::Regular || !before.is_same_file(after) {
        return Err(
            RegistryError::Validation(
                "project registry must be the same regular file opened without symlinks".to_owned(),
            ),
        );
    }
    check_registry_file(after)
}

/// The first refusal, in the order in which the facts are learned: of the
/// directory, of the file before it is opened, of the file that was opened, and
/// of how much was read.
pub open spec fn facts_refusal(directory: Option<FileFacts>, before: Option<FileFacts>, after: Option<FileFacts>, count: Option<u64>) -> Option<RegistryErrorView> {
    if directory matches Some(facts) && directory_refusal(facts) is Some {
        directory_refusal(directory->0)
    } else if before matches Some(facts) && file_refusal(facts) is Some {
        file_refusal(before->0)
    } else if before is Some && after is Some && opened_refusal(before->0, after->0) is Some {
        opened_refusal(before->0, after->0)
    } else {
        match count {
            Some(size) => oversized_refusal(size as int),
            None => None,
        }
    }
}

/// Judges what is known of the registry so far.
pub fn check_registry(directory: Option<FileFacts>, before: Option<FileFacts>, after: Option<FileFacts>, count: Option<u64>) -> (r: Result<(), RegistryError>)
    ensures
        refusal(r) == facts_refusal(directory, before, after, count),
{
    match &directory {
        Some(facts) => {
            let result = check_registry_directory(facts);
            if result.is_err() {
                return result;
            }
        },
        None => {},
    }
    match &before {
        Some(facts) => {
            let result = check_registry_file(facts);
            if result.is_err() {
                return result;
            }
            match &after {
                Some(opened) => {
                    let result = check_opened_registry(facts, opened);
                    if result.is_err() {
                        return result;
                    }
                },
                None => {},
            }
        },
        None => {},
    }
    match count {
        Some(size) => reject_oversized(size),
        None => Ok(()),
    }
}

/// What was refused stays refused, whatever is learned later, and for the same
/// reason.
pub proof fn refusals_are_final(directory: Option<FileFacts>, before: FileFacts, after: FileFacts, count: u64)
    ensures
        facts_refusal(directory, None, None, None) is Some ==> facts_refusal(directory, Some(before), Some(after), Some(count))
            == facts_refusal(directory, None, None, None),
        facts_refusal(directory, Some(before), None, None) is Some ==> facts_refusal(
            directory,
            Some(before),
            Some(after),
            Some(count),
        ) == facts_refusal(directory, Some(before), None, None),
        facts_refusal(directory, Some(before), Some(after), None) is Some ==> facts_refusal(
            directory,
            Some(before),
            Some(after),
            Some(count),
        ) == facts_refusal(directory, Some(before), Some(after), None),
{
}

// ---------------------------------------------------------------------------
// The records

/// The first of the records before `at` that has the id of the one at `at`.
pub open spec fn repeats_id(records: Seq<RecordView>, at: int) -> bool {
    exists|i: int| 0 <= i < at && (#[trigger] records[i]).id == records[at].id
}

pub open spec fn repeats_path(records: Seq<RecordView>, at: int) -> bool {
    exists|i: int| 0 <= i < at && same_path((#[trigger] records[i]).path, records[at].path)
}

/// What is wrong with the record at `at`, if anything.
pub open spec fn record_refusal(records: Seq<RecordView>, at: int) -> Option<Seq<char>> {
    let record = records[at];
    if record.id.len() == 0 {
        Some("project id must not be empty"@)
    } else if !is_absolute(record.path) {
        Some("project "@ + record.id + " path must be absolute"@)
    } else if repeats_id(records, at) {
        Some("duplicate project id "@ + record.id)
    } else if repeats_path(records, at) {
        Some("duplicate project path "@ + record.path)
    } else {
        match record.cook {
            None => None,
            Some(command) => if command.len() == 0 {
                Some("project "@ + record.id + " cook command must not be empty"@)
            } else if !is_absolute(command[0]) {
                Some("project "@ + record.id + " cook executable must be absolute"@)
            } else {
                None
            },
        }
    }
}

/// The first complaint about the records from `at` on.
pub open spec fn first_refusal(records: Seq<RecordView>, at: int) -> Option<Seq<char>>
    decreases records.len() - at,
{
    if at < 0 || at >= records.len() {
        None
    } else {
        match record_refusal(records, at) {
            Some(message) => Some(message),
            None => first_refusal(records, at + 1),
        }
    }
}

/// The outcome of reading a registry from the records that it lists, or from
/// why it does not list records.
pub open spec fn registry_outcome(parsed: Result<Seq<RecordView>, Seq<char>>) -> Result<Seq<RecordView>, RegistryErrorView> {
    match parsed {
        Err(message) => Err(RegistryErrorView::Parse(message)),
        Ok(records) => match first_refusal(records, 0) {
            Some(message) => Err(RegistryErrorView::Validation(message)),
            None => Ok(records),
        },
    }
}

/// The parsed records, by value.
pub open spec fn parsed_view(parsed: Result<Vec<ProjectRecord>, String>) -> Result<Seq<RecordView>, Seq<char>> {
    match parsed {
        Ok(records) => Ok(views(records@)),
        Err(message) => Err(message@),
    }
}

pub open spec fn registry_result_view(result: Result<Vec<ProjectRecord>, RegistryError>) -> Result<Seq<RecordView>, RegistryErrorView> {
    match result {
        Ok(records) => Ok(views(records@)),
        Err(error) => Err(error@),
    }
}

fn about_project(id: &str, complaint: &str) -> (message: String)
    ensures
        message@ == "project "@ + id@ + complaint@,
{
    let mut message = joined("project ", id);
    message.append(complaint);
    message
}

fn complaint(records: &Vec<ProjectRecord>, at: usize) -> (message: Option<String>)
    requires
        at < records@.len(),
    ensures
        option_view(message) == record_refusal(views(records@), at as int),
{
    let ghost all = views(records@);
    let record = &records[at];
    assert(all[at as int] == record@);
    if record.id.as_str().is_empty() {
        return Some("project id must not be empty".to_owned());
    }
    if !absolute(record.path.as_str()) {
        return Some(about_project(record.id.as_str(), " path must be absolute"));
    }
    let mut i: usize = 0;
    while i < at
        invariant
            i <= at < records@.len(),
            all == views(records@),
            *record == records@[at as int],
            all[at as int] == record@,
            record@.id.len() > 0,
            is_absolute(record@.path),
            forall|j: int| 0 <= j < i ==> (#[trigger] all[j]).id != record@.id,
        decreases at - i,
    {
        if same_text(records[i].id.as_str(), record.id.as_str()) {
            assert(all[i as int].id == all[at as int].id);
            assert(repeats_id(all, at as int));
            return Some(joined("duplicate project id ", record.id.as_str()));
        }
        i += 1;
    }
    assert(!repeats_id(all, at as int));
    let mut k: usize = 0;
    while k < at
        invariant
            k <= at < records@.len(),
            all == views(records@),
            *record == records@[at as int],
            all[at as int] == record@,
            record@.id.len() > 0,
            is_absolute(record@.path),
            !repeats_id(all, at as int),
            forall|j: int| 0 <= j < k ==> !same_path((#[trigger] all[j]).path, record@.path),
        decreases at - k,
    {
        if paths_equal(records[k].path.as_str(), record.path.as_str()) {
            assert(same_path(all[k as int].path, all[at as int].path));
            assert(repeats_path(all, at as int));
            return Some(joined("duplicate project path ", record.path.as_str()));
        }
        k += 1;
    }
    assert(!repeats_path(all, at as int));
    match &record.cook {
        None => None,
        Some(command) => if command.len() == 0 {
            Some(about_project(record.id.as_str(), " cook command must not be empty"))
        } else {
            assert(views(command@)[0] == command@[0]@);
            if !absolute(command[0].as_str()) {
                Some(about_project(record.id.as_str(), " cook executable must be absolute"))
            } else {
                None
            }
        },
    }
}

/// Checks the records of a parsed registry.
pub fn registry_from_records(parsed: Result<Vec<ProjectRecord>, String>) -> (result: Result<Vec<ProjectRecord>, RegistryError>)
    ensures
        registry_result_view(result) == registry_outcome(parsed_view(parsed)),
{
    match parsed {
        Err(message) => Err(RegistryError::Parse(message)),
        Ok(records) => {
            let ghost all = views(records@);
            let mut i: usize = 0;
            while i < records.len()
                invariant
                    i <= records@.len(),
                    all == views(records@),
                    parsed_view(parsed) == Ok::<Seq<RecordView>, Seq<char>>(all),
                    first_refusal(all, 0) == first_refusal(all, i as int),
                decreases records@.len() - i,
            {
                match complaint(&records, i) {
                    Some(message) => {
                        return Err(RegistryError::Validation(message));
                    },
                    None => {},
                }
                i += 1;
            }
            Ok(records)
        },
    }
}

/// The registry as a whole: the first refusal of its files, of its text, and of
/// its records, or the records.
pub open spec fn registry_verdict(directory: Option<FileFacts>, before: FileFacts, after: FileFacts, count: u64, parsed: Result<Seq<RecordView>, Seq<char>>) -> Result<Seq<RecordView>, RegistryErrorView> {
    match facts_refusal(directory, Some(before), Some(after), Some(count)) {
        Some(error) => Err(error),
        None => registry_outcome(parsed),
    }
}

/// Judges a registry that has been read.
pub fn judge_registry(directory: Option<FileFacts>, before: FileFacts, after: FileFacts, count: u64, parsed: Result<Vec<ProjectRecord>, String>) -> (result: Result<Vec<ProjectRecord>, RegistryError>)
    ensures
        registry_result_view(result) == registry_verdict(directory, before, after, count, parsed_view(parsed)),
{
    match check_registry(directory, Some(before), Some(after), Some(count)) {
        Err(error) => Err(error),
        Ok(()) => registry_from_records(parsed),
    }
}

/// The ids and the paths of the records are all different.
pub open spec fn records_are_distinct(records: Seq<RecordView>) -> bool {
    forall|i: int, j: int|
        0 <= i < j < records.len() ==> (#[trigger] records[i]).id != (#[trigger] records[j]).id && !same_path(
            records[i].path,
            records[j].path,
        )
}

/// Records that can be served: distinct, with ids, absolute paths and absolute
/// commands.
pub open spec fn valid_records(records: Seq<RecordView>) -> bool {
    &&& records_are_distinct(records)
    &&& forall|i: int| 0 <= i < records.len() ==> (#[trigger] records[i]).id.len() > 0 && is_absolute(records[i].path)
    &&& forall|i: int|
        0 <= i < records.len() ==> ((#[trigger] records[i]).cook matches Some(command) ==> command.len() > 0 && is_absolute(command[0]))
}

proof fn no_refusal_means_valid(records: Seq<RecordView>, at: int)
    requires
        0 <= at,
        first_refusal(records, at) is None,
    ensures
        forall|i: int| at <= i < records.len() ==> record_refusal(records, i) is None,
    decreases records.len() - at,
{
    if at < records.len() {
        no_refusal_means_valid(records, at + 1);
        assert forall|i: int| at <= i < records.len() implies record_refusal(records, i) is None by {
            if i > at {
                assert(record_refusal(records, i) is None);
            }
        }
    }
}

/// Every registry that is accepted can be served.
pub proof fn accepted_registries_are_valid(parsed: Result<Seq<RecordView>, Seq<char>>)
    ensures
        registry_outcome(parsed) matches Ok(records) ==> valid_records(records),
{
    match registry_outcome(parsed) {
        Ok(records) => {
            no_refusal_means_valid(records, 0);
            assert forall|i: int, j: int| 0 <= i < j < records.len() implies (#[trigger] records[i]).id != (#[trigger] records[j]).id
                && !same_path(records[i].path, records[j].path) by {
                assert(record_refusal(records, j) is None);
                assert(!repeats_id(records, j));
                assert(!repeats_path(records, j));
            }
            assert forall|i: int| 0 <= i < records.len() implies (#[trigger] records[i]).id.len() > 0 && is_absolute(records[i].path)
                && (records[i].cook matches Some(command) ==> command.len() > 0 && is_absolute(command[0])) by {
                assert(record_refusal(records, i) is None);
            }
        },
        Err(_) => {},
    }
}

} // verus!
