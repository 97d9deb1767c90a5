//! What clients can ask for.

use crate::envelope::{read_envelope, Envelope, EnvelopeView, Method, MethodView, PROTOCOL_VERSION};
use crate::json::{json_field, json_parsed, parse_json, parse_view, Json, JsonObject, JsonView};
use crate::path::{absolute, is_absolute, paths_equal, same_path};
use crate::project::{ProjectRecord, RecordView};
use crate::project_json::{projection_json, SNAPSHOT_SCHEMA_MAX, SNAPSHOT_SCHEMA_MIN};
use crate::protocol::{CapacityPermit, ConnectionId, CounterName};
use crate::server::model::{record_place, subscription_id, subscription_place, waiters_for, ServerView, Subscription,
    SubscriptionView, WaitKind, WaitKindView, Waiter, WaiterView};
use crate::server::snapshots::{subscription_result, subscription_result_json};
use crate::server::Server;
use crate::text::{decimal, joined, same_text};
use crate::time::Duration;
use crate::views::{option_view, views, views_push};
use vstd::prelude::*;

verus! {

// ---------------------------------------------------------------------------
// Selecting a project

/// The place of the first record at that path, or -1.
pub open spec fn path_place(list: Seq<RecordView>, path: Seq<char>) -> int
    decreases list.len(),
{
    if list.len() == 0 {
        -1
    } else if path_place(list.drop_last(), path) >= 0 {
        path_place(list.drop_last(), path)
    } else if same_path(list.last().path, path) {
        list.len() - 1
    } else {
        -1
    }
}

/// Why a selection failed.
pub struct RefusalView {
    pub code: Seq<char>,
    pub message: Seq<char>,
}

/// A refusal's code and message.
pub struct Refusal {
    pub code: &'static str,
    pub message: &'static str,
}

impl View for Refusal {
    type V = RefusalView;

    open spec fn view(&self) -> RefusalView {
        RefusalView { code: self.code@, message: self.message@ }
    }
}

pub open spec fn selection_view(result: Result<String, Refusal>) -> Result<Seq<char>, RefusalView> {
    match result {
        Ok(id) => Ok(id@),
        Err(refusal) => Err(refusal@),
    }
}

pub open spec fn refused(code: Seq<char>, message: Seq<char>) -> Result<Seq<char>, RefusalView> {
    Err(RefusalView { code, message })
}

impl ServerView {
    /// A project that was found can be served if it is enabled.
    pub open spec fn served(self, at: int) -> Result<Seq<char>, RefusalView> {
        if at < 0 {
            refused("unknown_project"@, "project is not registered"@)
        } else if !self.projects[at].enabled {
            refused("unavailable"@, "project is disabled"@)
        } else {
            Ok(self.projects[at].id)
        }
    }

    /// The project that the parameters name: by its id or by its absolute
    /// path, and by nothing else.
    pub open spec fn selected(self, params: JsonView) -> Result<Seq<char>, RefusalView> {
        if !(params is Object) {
            refused("invalid_params"@, "params must be an object"@)
        } else {
            match (json_field(params, "projectId"@), json_field(params, "path"@)) {
                (Some(JsonView::Text(id)), None) => self.served(record_place(self.projects, id)),
                (None, Some(JsonView::Text(path))) => if is_absolute(path) {
                    self.served(path_place(self.projects, path))
                } else {
                    refused("invalid_selector"@, "select exactly one projectId or absolute path"@)
                },
                _ => refused("invalid_selector"@, "select exactly one projectId or absolute path"@),
            }
        }
    }
}

proof fn record_place_is_first(list: Seq<RecordView>, id: Seq<char>, i: int)
    requires
        0 < i <= list.len(),
        record_place(list.take(i), id) >= 0,
    ensures
        record_place(list, id) == record_place(list.take(i), id),
    decreases list.len(),
{
    if i == list.len() {
        assert(list.take(i) =~= list);
    } else {
        assert(list.drop_last().take(i) =~= list.take(i));
        record_place_is_first(list.drop_last(), id, i);
    }
}

proof fn path_place_is_first(list: Seq<RecordView>, path: Seq<char>, i: int)
    requires
        0 < i <= list.len(),
        path_place(list.take(i), path) >= 0,
    ensures
        path_place(list, path) == path_place(list.take(i), path),
    decreases list.len(),
{
    if i == list.len() {
        assert(list.take(i) =~= list);
    } else {
        assert(list.drop_last().take(i) =~= list.take(i));
        path_place_is_first(list.drop_last(), path, i);
    }
}

/// Where the record with an id stands.
pub(crate) fn find_record(list: &Vec<ProjectRecord>, id: &str) -> (at: Option<usize>)
    ensures
        at matches Some(i) ==> record_place(views(list@), id@) == i && i < list@.len(),
        at is None ==> record_place(views(list@), id@) == -1,
{
    let ghost all = views(list@);
    let mut i: usize = 0;
    assert(all.take(0) =~= Seq::<RecordView>::empty());
    while i < list.len()
        invariant
            i <= list@.len(),
            all == views(list@),
            record_place(all.take(i as int), id@) == -1,
        decreases list@.len() - i,
    {
        proof {
            assert(all.take(i + 1).drop_last() =~= all.take(i as int));
            assert(all.take(i + 1).last() == list@[i as int]@);
        }
        if same_text(list[i].id.as_str(), id) {
            proof {
                record_place_is_first(all, id@, i + 1);
            }
            return Some(i);
        }
        i += 1;
    }
    assert(all.take(i as int) =~= all);
    None
}

fn find_path(list: &Vec<ProjectRecord>, path: &str) -> (at: Option<usize>)
    ensures
        at matches Some(i) ==> path_place(views(list@), path@) == i && i < list@.len(),
        at is None ==> path_place(views(list@), path@) == -1,
{
    let ghost all = views(list@);
    let mut i: usize = 0;
    assert(all.take(0) =~= Seq::<RecordView>::empty());
    while i < list.len()
        invariant
            i <= list@.len(),
            all == views(list@),
            path_place(all.take(i as int), path@) == -1,
        decreases list@.len() - i,
    {
        proof {
            assert(all.take(i + 1).drop_last() =~= all.take(i as int));
            assert(all.take(i + 1).last() == list@[i as int]@);
        }
        if paths_equal(list[i].path.as_str(), path) {
            proof {
                path_place_is_first(all, path@, i + 1);
            }
            return Some(i);
        }
        i += 1;
    }
    assert(all.take(i as int) =~= all);
    None
}

impl Server {
    fn serve_project(&self, at: Option<usize>) -> (result: Result<String, Refusal>)
        requires
            at matches Some(i) ==> i < self.projects@.len(),
        ensures
            selection_view(result) == self@.served(match at {
                Some(i) => i as int,
                None => -1,
            }),
    {
        match at {
            None => Err(Refusal { code: "unknown_project", message: "project is not registered" }),
            Some(i) => {
                assert(self@.projects[i as int] == self.projects@[i as int]@);
                if !self.projects[i].enabled {
                    Err(Refusal { code: "unavailable", message: "project is disabled" })
                } else {
                    Ok(self.projects[i].id.clone())
                }
            },
        }
    }

    /// The project that the parameters of a request name.
    pub fn select_project(&self, params: &Json) -> (result: Result<String, Refusal>)
        ensures
            selection_view(result) == self@.selected(params@),
    {
        if !params.is_object() {
            return Err(Refusal { code: "invalid_params", message: "params must be an object" });
        }
        match (params.field("projectId"), params.field("path")) {
            (Some(by_id), None) => match by_id.as_text() {
                Some(id) => self.serve_project(find_record(&self.projects, id.as_str())),
                None => Err(
                    Refusal { code: "invalid_selector", message: "select exactly one projectId or absolute path" },
                ),
            },
            (None, Some(by_path)) => match by_path.as_text() {
                Some(path) => {
                    if absolute(path.as_str()) {
                        self.serve_project(find_path(&self.projects, path.as_str()))
                    } else {
                        Err(
                            Refusal {
                                code: "invalid_selector",
                                message: "select exactly one projectId or absolute path",
                            },
                        )
                    }
                },
                None => Err(
                    Refusal { code: "invalid_selector", message: "select exactly one projectId or absolute path" },
                ),
            },
            _ => Err(Refusal { code: "invalid_selector", message: "select exactly one projectId or absolute path" }),
        }
    }
}

// ---------------------------------------------------------------------------
// The methods

/// What the daemon says about itself.
pub open spec fn hello_result(version: Seq<char>) -> JsonView {
    JsonView::Object(
        Map::empty()
            .insert("protocolVersion"@, JsonView::Unsigned(PROTOCOL_VERSION))
            .insert("serverVersion"@, JsonView::Text(version))
            .insert("snapshotSchemaMin"@, JsonView::Unsigned(SNAPSHOT_SCHEMA_MIN))
            .insert("snapshotSchemaMax"@, JsonView::Unsigned(SNAPSHOT_SCHEMA_MAX)),
    )
}

/// What is listed of one project.
pub open spec fn listed(record: RecordView) -> JsonView {
    JsonView::Object(
        Map::empty()
            .insert("id"@, JsonView::Text(record.id))
            .insert("path"@, JsonView::Text(record.path))
            .insert("name"@, JsonView::Text(record.name))
            .insert("enabled"@, JsonView::Bool(record.enabled)),
    )
}

/// The list of all projects.
pub open spec fn list_result(projects: Seq<RecordView>) -> JsonView {
    JsonView::Object(
        Map::empty().insert("projects"@, JsonView::List(Seq::new(projects.len(), |i: int| listed(projects[i])))),
    )
}

pub open spec fn unsubscribe_result() -> JsonView {
    JsonView::Object(Map::empty().insert("ok"@, JsonView::Bool(true)))
}

impl ServerView {
    /// A request that cannot be answered from the cache waits for a snapshot;
    /// where no more can wait the connection is closed.
    pub open spec fn waiting(self, waiter: WaiterView, now: Duration) -> ServerView {
        if self.can_wait(waiter.project_id) {
            self.with_waiter(waiter).started(waiter.project_id, now)
        } else {
            self.closed(waiter.connection)
        }
    }

    pub open spec fn snapshot_gotten(self, connection: ConnectionId, id: Seq<char>, params: JsonView, now: Duration) -> ServerView {
        match self.selected(params) {
            Err(refusal) => self.error_sent(connection, id, refusal.code, refusal.message),
            Ok(project) => match self.cached_projection(project) {
                Some(projection) => self.result_sent(connection, id, projection_json(projection)).0,
                None => self.waiting(
                    WaiterView { project_id: project, connection, request_id: id, kind: WaitKindView::Get },
                    now,
                ),
            },
        }
    }

    pub open spec fn subscribed(self, connection: ConnectionId, id: Seq<char>, params: JsonView, now: Duration) -> ServerView {
        match self.selected(params) {
            Err(refusal) => self.error_sent(connection, id, refusal.code, refusal.message),
            Ok(project) => {
                let subscription = subscription_id(connection, self.next_subscription);
                let numbered = ServerView { next_subscription: (self.next_subscription + 1) as u64, ..self };
                if !numbered.can_subscribe(connection) {
                    numbered.closed(connection)
                } else {
                    let registered = numbered.with_subscription(
                        SubscriptionView { id: subscription, connection, project_id: project, returned: false },
                    );
                    match registered.cached_projection(project) {
                        Some(projection) => {
                            let (after, sent) = registered.result_sent(
                                connection,
                                id,
                                subscription_result(subscription, projection),
                            );
                            if sent {
                                after.subscription_returned(subscription)
                            } else {
                                after.without_subscription(subscription)
                            }
                        },
                        None => registered.waiting(
                            WaiterView {
                                project_id: project,
                                connection,
                                request_id: id,
                                kind: WaitKindView::Subscribe(subscription),
                            },
                            now,
                        ),
                    }
                }
            },
        }
    }

    /// The connection has a subscription of that id, and knows it.
    pub open spec fn owns_subscription(self, connection: ConnectionId, id: Seq<char>) -> bool {
        let at = subscription_place(self.subscriptions, id);
        at >= 0 && self.subscriptions[at].connection == connection && self.subscriptions[at].returned
    }

    pub open spec fn unsubscribed(self, connection: ConnectionId, id: Seq<char>, params: JsonView) -> ServerView {
        match json_field(params, "subscriptionId"@) {
            Some(JsonView::Text(subscription)) => if self.owns_subscription(connection, subscription) {
                self.without_subscription(subscription).result_sent(connection, id, unsubscribe_result()).0
            } else {
                self.error_sent(
                    connection,
                    id,
                    "unknown_subscription"@,
                    "subscription is not owned by this connection"@,
                )
            },
            _ => self.error_sent(connection, id, "invalid_params"@, "subscriptionId is required"@),
        }
    }

    /// A request is carried out.
    pub open spec fn requested(self, connection: ConnectionId, version: u64, id: Seq<char>, method: MethodView, params: JsonView, now: Duration) -> ServerView {
        if version != PROTOCOL_VERSION {
            self.error_sent(connection, id, "unsupported_version"@, "unsupported protocol major version"@).closed(
                connection,
            )
        } else {
            match method {
                MethodView::ServerHello => if params is Object {
                    self.result_sent(connection, id, hello_result(self.server_version)).0
                } else {
                    self.error_sent(connection, id, "invalid_params"@, "params must be an object"@)
                },
                MethodView::ProjectList => if params is Object {
                    self.result_sent(connection, id, list_result(self.projects)).0
                } else {
                    self.error_sent(connection, id, "invalid_params"@, "params must be an object"@)
                },
                MethodView::SnapshotGet => self.snapshot_gotten(connection, id, params, now),
                MethodView::SnapshotSubscribe => self.subscribed(connection, id, params, now),
                MethodView::SnapshotUnsubscribe => self.unsubscribed(connection, id, params),
                MethodView::Unknown(_) => self.error_sent(connection, id, "unknown_method"@, "unknown request method"@),
            }
        }
    }

    /// A frame came in. What is no request is refused under the id that it
    /// carries, if it carries one.
    pub open spec fn frame_handled(self, connection: ConnectionId, parsed: Result<JsonView, Seq<char>>, now: Duration) -> ServerView {
        let refused_id = match parsed {
            Ok(json) => match json_field(json, "id"@) {
                Some(JsonView::Text(id)) => id,
                _ => ""@,
            },
            Err(_) => ""@,
        };
        let request = match parsed {
            Ok(json) => read_envelope(json),
            Err(_) => None,
        };
        match request {
            Some(EnvelopeView::Request { version, id, method, params }) => self.requested(
                connection,
                version,
                id,
                method,
                params,
                now,
            ),
            _ => self.error_sent(connection, refused_id, "invalid_request"@, "expected request envelope"@),
        }
    }

    /// There are ids left to give out.
    pub open spec fn has_ids(self) -> bool {
        self.next_subscription < u64::MAX && self.next_connection < u64::MAX
    }
}

impl Server {
    fn can_wait(&self, project: &str) -> (can: bool)
        ensures
            can == (waiters_for(self@.waiters, project@).len() < self@.limits.cold_waiters),
    {
        let ghost all = views(self.waiters@);
        let mut count: usize = 0;
        let mut i: usize = 0;
        assert(all.take(0) =~= Seq::<WaiterView>::empty());
        while i < self.waiters.len()
            invariant
                i <= self.waiters@.len(),
                count <= i,
                all == views(self.waiters@),
                count == waiters_for(all.take(i as int), project@).len(),
            decreases self.waiters@.len() - i,
        {
            proof {
                assert(all.take(i + 1).drop_last() =~= all.take(i as int));
                assert(all.take(i + 1).last() == self.waiters@[i as int]@);
            }
            if same_text(self.waiters[i].project_id.as_str(), project) {
                count += 1;
            }
            i += 1;
        }
        assert(all.take(i as int) =~= all);
        count < self.limits.cold_waiters
    }

    /// Lets a request wait if there is a place for it.
    fn try_add_waiter(&mut self, waiter: Waiter) -> (added: bool)
        ensures
            added == old(self)@.can_wait(waiter@.project_id),
            final(self)@ == if added { old(self)@.with_waiter(waiter@) } else { old(self)@ },
    {
        if !self.can_wait(waiter.project_id.as_str()) {
            return false;
        }
        let limit: usize = self.limits.cold_waiters;
        match CapacityPermit::try_acquire(&mut self.ledger, CounterName::Waiters, limit) {
            Some(_) => {
                proof {
                    views_push(self.waiters@, waiter);
                }
                self.waiters.push(waiter);
                true
            },
            None => false,
        }
    }

    /// Lets a request wait for a snapshot, or closes its connection.
    fn wait_for_snapshot(&mut self, waiter: Waiter, now: Duration)
        requires
            old(self)@.timely(now),
        ensures
            final(self)@ == old(self)@.waiting(waiter@, now),
    {
        let project = waiter.project_id.clone();
        let connection = waiter.connection;
        if self.try_add_waiter(waiter) {
            self.start_snapshot(project.as_str(), now);
        } else {
            self.close_connection(connection);
        }
    }

    /// Registers a subscription if there is a place for it.
    fn try_register_subscription(&mut self, subscription: Subscription) -> (registered: bool)
        ensures
            registered == old(self)@.can_subscribe(subscription@.connection),
            final(self)@ == if registered { old(self)@.with_subscription(subscription@) } else { old(self)@ },
    {
        let connection = subscription.connection;
        if !self.is_connected(connection) {
            return false;
        }
        let limits = self.limits;
        match CapacityPermit::try_acquire_pair(
            &mut self.ledger,
            CounterName::ConnectionSubscriptions(connection),
            limits.connection_subscriptions,
            CounterName::GlobalSubscriptions,
            limits.global_subscriptions,
        ) {
            Some(_) => {
                proof {
                    views_push(self.subscriptions@, subscription);
                }
                self.subscriptions.push(subscription);
                true
            },
            None => false,
        }
    }

    fn list_projects(&mut self, connection: ConnectionId, id: &str)
        ensures
            final(self)@ == old(self)@.result_sent(connection, id@, list_result(old(self)@.projects)).0,
    {
        let ghost wanted = Seq::new(self@.projects.len(), |i: int| listed(self@.projects[i]));
        let mut items: Vec<Json> = Vec::new();
        let mut i: usize = 0;
        while i < self.projects.len()
            invariant
                i <= self.projects@.len(),
                wanted == Seq::new(self@.projects.len(), |i: int| listed(self@.projects[i])),
                items@.len() == i,
                forall|j: int| 0 <= j < i ==> (#[trigger] items@[j])@ == wanted[j],
            decreases self.projects@.len() - i,
        {
            let record = &self.projects[i];
            let item = JsonObject::new()
                .with("id", Json::text(record.id.as_str()))
                .with("path", Json::text(record.path.as_str()))
                .with("name", Json::text(record.name.as_str()))
                .with("enabled", Json::Bool(record.enabled))
                .done();
            items.push(item);
            i += 1;
        }
        assert(views(items@) =~= wanted);
        let result = JsonObject::new().with("projects", Json::list(items)).done();
        let _ = self.send_result(connection, id, result);
    }

    fn cached_result(&self, project: &str) -> (result: Option<Json>)
        ensures
            option_view(result) == match self@.cached_projection(project@) {
                Some(projection) => Some(projection_json(projection)),
                None => None,
            },
    {
        match self.caches.get(project) {
            Some(cache) => match cache.projection() {
                Some(projection) => Some(projection.to_json()),
                None => None,
            },
            None => None,
        }
    }

    fn snapshot_get(&mut self, connection: ConnectionId, id: String, params: &Json, now: Duration)
        requires
            old(self)@.timely(now),
        ensures
            final(self)@ == old(self)@.snapshot_gotten(connection, id@, params@, now),
    {
        let project = match self.select_project(params) {
            Ok(project) => project,
            Err(refusal) => {
                self.send_error(connection, id.as_str(), refusal.code, refusal.message);
                return;
            },
        };
        match self.cached_result(project.as_str()) {
            Some(result) => {
                let _ = self.send_result(connection, id.as_str(), result);
            },
            None => {
                self.wait_for_snapshot(
                    Waiter { project_id: project, connection, request_id: id, kind: WaitKind::Get },
                    now,
                );
            },
        }
    }

    fn snapshot_subscribe(&mut self, connection: ConnectionId, id: String, params: &Json, now: Duration)
        requires
            old(self)@.timely(now),
            old(self)@.has_ids(),
        ensures
            final(self)@ == old(self)@.subscribed(connection, id@, params@, now),
    {
        let project = match self.select_project(params) {
            Ok(project) => project,
            Err(refusal) => {
                self.send_error(connection, id.as_str(), refusal.code, refusal.message);
                return;
            },
        };
        let mut subscription = joined("s-", decimal(connection).as_str());
        subscription.append("-");
        subscription.append(decimal(self.next_subscription).as_str());
        self.next_subscription = self.next_subscription + 1;
        let registered = self.try_register_subscription(
            Subscription { id: subscription.clone(), connection, project_id: project.clone(), returned: false },
        );
        if !registered {
            self.close_connection(connection);
            return;
        }
        let result = match self.caches.get(project.as_str()) {
            Some(cache) => match cache.projection() {
                Some(projection) => Some(subscription_result_json(subscription.as_str(), projection)),
                None => None,
            },
            None => None,
        };
        match result {
            Some(result) => {
                if self.send_result(connection, id.as_str(), result) {
                    self.mark_subscription_returned(subscription.as_str());
                } else {
                    self.remove_subscription(subscription.as_str());
                }
            },
            None => {
                self.wait_for_snapshot(
                    Waiter {
                        project_id: project,
                        connection,
                        request_id: id,
                        kind: WaitKind::Subscribe(subscription),
                    },
                    now,
                );
            },
        }
    }

    fn snapshot_unsubscribe(&mut self, connection: ConnectionId, id: &str, params: &Json)
        ensures
            final(self)@ == old(self)@.unsubscribed(connection, id@, params@),
    {
        let subscription = match params.field("subscriptionId") {
            Some(value) => match value.as_text() {
                Some(text) => text.clone(),
                None => {
                    self.send_error(connection, id, "invalid_params", "subscriptionId is required");
                    return;
                },
            },
            None => {
                self.send_error(connection, id, "invalid_params", "subscriptionId is required");
                return;
            },
        };
        let owned = match self.find_subscription(subscription.as_str()) {
            Some(at) => {
                assert(self@.subscriptions[at as int] == self.subscriptions@[at as int]@);
                self.subscriptions[at].connection == connection && self.subscriptions[at].returned
            },
            None => false,
        };
        if !owned {
            self.send_error(
                connection,
                id,
                "unknown_subscription",
                "subscription is not owned by this connection",
            );
            return;
        }
        self.remove_subscription(subscription.as_str());
        let result = JsonObject::new().with("ok", Json::Bool(true)).done();
        let _ = self.send_result(connection, id, result);
    }

    fn perform(&mut self, connection: ConnectionId, version: u64, id: String, method: Method, params: Json, now: Duration)
        requires
            old(self)@.timely(now),
            old(self)@.has_ids(),
        ensures
            final(self)@ == old(self)@.requested(connection, version, id@, method@, params@, now),
    {
        if version != PROTOCOL_VERSION {
            self.send_error(connection, id.as_str(), "unsupported_version", "unsupported protocol major version");
            self.close_connection(connection);
            return;
        }
        match method {
            Method::ServerHello => {
                if !params.is_object() {
                    self.send_error(connection, id.as_str(), "invalid_params", "params must be an object");
                    return;
                }
                let result = JsonObject::new()
                    .with("protocolVersion", Json::unsigned(PROTOCOL_VERSION))
                    .with("serverVersion", Json::text(self.server_version.as_str()))
                    .with("snapshotSchemaMin", Json::unsigned(SNAPSHOT_SCHEMA_MIN))
                    .with("snapshotSchemaMax", Json::unsigned(SNAPSHOT_SCHEMA_MAX))
                    .done();
                let _ = self.send_result(connection, id.as_str(), result);
            },
            Method::ProjectList => {
                if !params.is_object() {
                    self.send_error(connection, id.as_str(), "invalid_params", "params must be an object");
                    return;
                }
                self.list_projects(connection, id.as_str());
            },
            Method::SnapshotGet => {
                self.snapshot_get(connection, id, &params, now);
            },
            Method::SnapshotSubscribe => {
                self.snapshot_subscribe(connection, id, &params, now);
            },
            Method::SnapshotUnsubscribe => {
                self.snapshot_unsubscribe(connection, id.as_str(), &params);
            },
            Method::Unknown(_) => {
                self.send_error(connection, id.as_str(), "unknown_method", "unknown request method");
            },
        }
    }

    /// Handles a frame that has been parsed.
    pub fn handle_document(&mut self, connection: ConnectionId, parsed: Result<Json, String>, now: Duration)
        requires
            old(self)@.timely(now),
            old(self)@.has_ids(),
        ensures
            final(self)@ == old(self)@.frame_handled(connection, parse_view(parsed), now),
    {
        let json = match parsed {
            Ok(json) => json,
            Err(_) => {
                self.send_error(connection, "", "invalid_request", "expected request envelope");
                return;
            },
        };
        let safe_id = match json.field("id") {
            Some(value) => match value.as_text() {
                Some(text) => text.clone(),
                None => "".to_owned(),
            },
            None => "".to_owned(),
        };
        match Envelope::from_json(&json) {
            Some(Envelope::Request { version, id, method, params }) => {
                self.perform(connection, version, id, method, params, now);
            },
            _ => {
                self.send_error(connection, safe_id.as_str(), "invalid_request", "expected request envelope");
            },
        }
    }

    /// Handles the bytes of a frame.
    pub fn handle_request(&mut self, connection: ConnectionId, frame: &[u8], now: Duration)
        requires
            old(self)@.timely(now),
            old(self)@.has_ids(),
        ensures
            final(self)@ == old(self)@.frame_handled(connection, json_parsed(frame@), now),
    {
        self.handle_document(connection, parse_json(frame), now);
    }
}

} // verus!
