//! Which project a request means.

use crate::json::{json_field, JsonView};
use crate::message_laws::{every_project_is_listed, is_row_of};
use crate::path::components;
use crate::project::RecordView;
use crate::server::model::{record_place, record_with, ServerView};
use crate::server::request::{list_result, path_place, RefusalView};
use crate::server::snapshots::{enabled_place, enabled_place_in_range};
use vstd::prelude::*;

verus! {

/// The place is that of the first record with that id.
pub open spec fn first_with_id(list: Seq<RecordView>, id: Seq<char>, at: int) -> bool {
    &&& 0 <= at < list.len()
    &&& list[at].id == id
    &&& forall|i: int| 0 <= i < at ==> (#[trigger] list[i]).id != id
}

/// The place is that of the first record at that path, however it is spelled.
pub open spec fn first_at_path(list: Seq<RecordView>, path: Seq<char>, at: int) -> bool {
    &&& 0 <= at < list.len()
    &&& components(list[at].path) == components(path)
    &&& forall|i: int| 0 <= i < at ==> components((#[trigger] list[i]).path) != components(path)
}

pub proof fn record_places_are_first(list: Seq<RecordView>, id: Seq<char>)
    ensures
        record_place(list, id) >= 0 ==> first_with_id(list, id, record_place(list, id)),
        record_place(list, id) < 0 ==> forall|i: int| 0 <= i < list.len() ==> (#[trigger] list[i]).id != id,
    decreases list.len(),
{
    if list.len() > 0 {
        let shorter = list.drop_last();
        record_places_are_first(shorter, id);
        assert forall|i: int| 0 <= i < shorter.len() implies #[trigger] list[i] == shorter[i] by {}
        let at = record_place(list, id);
        assert forall|i: int| 0 <= i < list.len() && (at < 0 || i < at) implies (#[trigger] list[i]).id != id by {
            if i < shorter.len() {
                assert(shorter[i].id != id);
            }
        }
    }
}

proof fn path_places_are_first(list: Seq<RecordView>, path: Seq<char>)
    ensures
        path_place(list, path) >= 0 ==> first_at_path(list, path, path_place(list, path)),
        path_place(list, path) < 0 ==> forall|i: int| 0 <= i < list.len() ==> components((#[trigger] list[i]).path) != components(path),
    decreases list.len(),
{
    if list.len() > 0 {
        let shorter = list.drop_last();
        path_places_are_first(shorter, path);
        assert forall|i: int| 0 <= i < shorter.len() implies #[trigger] list[i] == shorter[i] by {}
        let at = path_place(list, path);
        assert forall|i: int| 0 <= i < list.len() && (at < 0 || i < at) implies components((#[trigger] list[i]).path)
            != components(path) by {
            if i < shorter.len() {
                assert(components(shorter[i].path) != components(path));
            }
        }
    }
}

/// A selection was refused with that code and message.
pub open spec fn is_refused(result: Result<Seq<char>, RefusalView>, code: Seq<char>, message: Seq<char>) -> bool {
    result matches Err(refusal) && refusal.code == code && refusal.message == message
}

/// What the selection of a record comes to: its id, if it is enabled.
pub open spec fn is_answer_for(result: Result<Seq<char>, RefusalView>, record: RecordView) -> bool {
    if record.enabled {
        result == Ok::<Seq<char>, RefusalView>(record.id)
    } else {
        is_refused(result, "unavailable"@, "project is disabled"@)
    }
}

/// A project is found by its id, whatever else the parameters hold, as long as
/// they name no path beside it.
pub proof fn projects_are_found_by_id(view: ServerView, params: JsonView, id: Seq<char>, at: int)
    requires
        params is Object,
        json_field(params, "projectId"@) == Some(JsonView::Text(id)),
        json_field(params, "path"@) is None,
    ensures
        first_with_id(view.projects, id, at) ==> is_answer_for(view.selected(params), view.projects[at]),
        (forall|i: int| 0 <= i < view.projects.len() ==> (#[trigger] view.projects[i]).id != id) ==> is_refused(
            view.selected(params),
            "unknown_project"@,
            "project is not registered"@,
        ),
{
    record_places_are_first(view.projects, id);
    let found = record_place(view.projects, id);
    if first_with_id(view.projects, id, at) {
        assert(view.projects[at].id == id);
        assert(found >= 0);
        assert(found == at);
    }
}

/// A project is found by its absolute path, however that is spelled, as long
/// as the parameters name no id beside it.
pub proof fn projects_are_found_by_path(view: ServerView, params: JsonView, path: Seq<char>, at: int)
    requires
        params is Object,
        json_field(params, "path"@) == Some(JsonView::Text(path)),
        json_field(params, "projectId"@) is None,
        path.len() > 0 && path[0] == '/',
    ensures
        first_at_path(view.projects, path, at) ==> is_answer_for(view.selected(params), view.projects[at]),
        (forall|i: int| 0 <= i < view.projects.len() ==> components((#[trigger] view.projects[i]).path) != components(path))
            ==> is_refused(view.selected(params), "unknown_project"@, "project is not registered"@),
{
    path_places_are_first(view.projects, path);
    let found = path_place(view.projects, path);
    if first_at_path(view.projects, path, at) {
        assert(components(view.projects[at].path) == components(path));
        assert(found >= 0);
        assert(found == at);
    }
}

/// Parameters that name both or neither, a relative path, or something that is
/// no text select nothing; parameters that are no object are no parameters.
pub proof fn other_selectors_select_nothing(view: ServerView, params: JsonView)
    ensures
        !(params is Object) ==> is_refused(view.selected(params), "invalid_params"@, "params must be an object"@),
        ({
            let by_id = json_field(params, "projectId"@);
            let by_path = json_field(params, "path"@);
            let names_id = by_id matches Some(JsonView::Text(_));
            let names_path = by_path matches Some(JsonView::Text(path)) && path.len() > 0 && path[0] == '/';
            params is Object && !(names_id && by_path is None) && !(names_path && by_id is None) ==> is_refused(
                view.selected(params),
                "invalid_selector"@,
                "select exactly one projectId or absolute path"@,
            )
        }),
{
}

/// What the list of projects says of a project leads back to it: selecting by
/// the path in a row gives the project whose id stands in the row, where the
/// registered places differ, are absolute, and the project is enabled.
pub proof fn listed_paths_select_the_listed_project(view: ServerView, rows: Seq<JsonView>, i: int, path: Seq<char>, params: JsonView)
    requires
        json_field(list_result(view.projects), "projects"@) == Some(JsonView::List(rows)),
        0 <= i < rows.len(),
        json_field(rows[i], "enabled"@) == Some(JsonView::Bool(true)),
        json_field(rows[i], "path"@) == Some(JsonView::Text(path)),
        path.len() > 0 && path[0] == '/',
        params is Object,
        json_field(params, "path"@) == Some(JsonView::Text(path)),
        json_field(params, "projectId"@) is None,
        forall|a: int, b: int|
            0 <= a < b < view.projects.len() ==> components((#[trigger] view.projects[a]).path) != components(
                (#[trigger] view.projects[b]).path,
            ),
    ensures
        view.selected(params) matches Ok(id) && json_field(rows[i], "id"@) == Some(JsonView::Text(id)),
{
    every_project_is_listed(view.projects);
    assert(is_row_of(rows[i], view.projects[i]));
    assert(first_at_path(view.projects, path, i));
    projects_are_found_by_path(view, params, path, i);
}

/// The registration that is looked up under an id is the first one with it.
pub proof fn lookups_find_the_first(list: Seq<RecordView>, id: Seq<char>, at: int)
    ensures
        first_with_id(list, id, at) ==> record_with(list, id) == Some(list[at]),
        (forall|i: int| 0 <= i < list.len() ==> (#[trigger] list[i]).id != id) ==> record_with(list, id) is None,
{
    record_places_are_first(list, id);
    if first_with_id(list, id, at) {
        assert(list[at].id == id);
        assert(record_place(list, id) == at);
    }
}

/// A snapshot is taken for the first enabled project with that id, and for
/// none if there is none.
pub proof fn only_enabled_projects_are_asked(view: ServerView, id: Seq<char>, at: int)
    requires
        0 <= at < view.projects.len() ==> view.projects[at].id == id && view.projects[at].enabled && forall|i: int|
            0 <= i < at ==> !((#[trigger] view.projects[i]).id == id && view.projects[i].enabled),
    ensures
        0 <= at < view.projects.len() ==> view.enabled_record(id) == Some(view.projects[at]),
        (forall|i: int| 0 <= i < view.projects.len() ==> !((#[trigger] view.projects[i]).id == id && view.projects[i].enabled))
            ==> view.enabled_record(id) is None,
{
    enabled_place_in_range(view.projects, id);
    enabled_places_are_first(view.projects, id);
    if 0 <= at < view.projects.len() {
        assert(view.projects[at].id == id && view.projects[at].enabled);
        assert(enabled_place(view.projects, id) == at);
    }
}

proof fn enabled_places_are_first(list: Seq<RecordView>, id: Seq<char>)
    ensures
        forall|i: int| 0 <= i < enabled_place(list, id) ==> !((#[trigger] list[i]).id == id && list[i].enabled),
    decreases list.len(),
{
    if list.len() > 0 {
        let shorter = list.drop_last();
        enabled_places_are_first(shorter, id);
        enabled_place_in_range(shorter, id);
        assert forall|i: int| 0 <= i < enabled_place(list, id) implies !((#[trigger] list[i]).id == id && list[i].enabled) by {
            assert(list[i] == shorter[i]);
        }
    }
}

} // verus!
