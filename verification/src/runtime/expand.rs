//! Expansion of handles: each goes where its provenance says, a failed batch is
//! tried again handle by handle, and a handle of unknown provenance is looked
//! for in the local index first and then at the service.

use vstd::prelude::*;
use vstd::multiset::Multiset;
use crate::capped_map;
use crate::error::CanopyError;
use crate::handle::HandleSource;
use crate::protocol::ExpandOutcome;
use crate::provenance::{HandleProvenance, ProvenanceTracker, TrackerState};
use crate::strings;
use crate::strings::{distinct_strings, join};
use crate::text;
use crate::text::extend_strings;

verus! {

broadcast use {vstd::string::group_string_axioms, vstd::seq::group_seq_axioms};

/// A handle that the service knows.
#[derive(Debug)]
pub struct ServiceHandle {
    pub id: String,
    pub generation: Option<u64>,
    pub repo_id: Option<String>,
}

/// The view of a [`ServiceHandle`].
pub struct ServiceHandleView {
    pub id: Seq<char>,
    pub generation: Option<u64>,
    pub repo_id: Option<Seq<char>>,
}

impl View for ServiceHandle {
    type V = ServiceHandleView;

    open spec fn view(&self) -> ServiceHandleView {
        ServiceHandleView {
            id: self.id@,
            generation: self.generation,
            repo_id: text::opt_view(self.repo_id),
        }
    }
}

/// One thing to ask of the local index or of the service.
#[derive(Debug)]
pub enum ExpandTask {
    /// Expand handles in the local index, together.
    LocalBatch(Vec<String>),
    /// Expand one handle in the local index.
    LocalOne(String),
    /// Find the repository at the service, and wait until it is ready.
    ServiceResolve(Vec<ServiceHandle>),
    /// Expand handles at the service, together.
    ServiceBatch(String, Vec<ServiceHandle>),
    /// Forget the repository's ID and find it at the service anew.
    ServiceRefresh(Vec<ServiceHandle>),
    /// Expand one handle of a repository at the service.
    ServiceOne(String, String, Option<u64>),
    /// Expand one handle of unknown provenance in the local index.
    UnknownLocal(String),
    /// Find the repository at the service, for a handle of unknown provenance.
    UnknownResolve(String),
    /// Wait until the repository is ready, for a handle of unknown provenance.
    UnknownReady(String, String),
}

/// The view of an [`ExpandTask`].
pub enum TaskView {
    LocalBatch(Seq<Seq<char>>),
    LocalOne(Seq<char>),
    ServiceResolve(Seq<ServiceHandleView>),
    ServiceBatch(Seq<char>, Seq<ServiceHandleView>),
    ServiceRefresh(Seq<ServiceHandleView>),
    ServiceOne(Seq<char>, Seq<char>, Option<u64>),
    UnknownLocal(Seq<char>),
    UnknownResolve(Seq<char>),
    UnknownReady(Seq<char>, Seq<char>),
}

impl View for ExpandTask {
    type V = TaskView;

    open spec fn view(&self) -> TaskView {
        match *self {
            ExpandTask::LocalBatch(ids) => TaskView::LocalBatch(text::views(ids@)),
            ExpandTask::LocalOne(id) => TaskView::LocalOne(id@),
            ExpandTask::ServiceResolve(hs) => TaskView::ServiceResolve(text::views(hs@)),
            ExpandTask::ServiceBatch(repo, hs) => TaskView::ServiceBatch(
                repo@,
                text::views(hs@),
            ),
            ExpandTask::ServiceRefresh(hs) => TaskView::ServiceRefresh(text::views(hs@)),
            ExpandTask::ServiceOne(repo, id, generation) => TaskView::ServiceOne(
                repo@,
                id@,
                generation,
            ),
            ExpandTask::UnknownLocal(id) => TaskView::UnknownLocal(id@),
            ExpandTask::UnknownResolve(id) => TaskView::UnknownResolve(id@),
            ExpandTask::UnknownReady(id, repo) => TaskView::UnknownReady(id@, repo@),
        }
    }
}

/// What came of a task.
#[derive(Debug)]
pub enum ExpandReply {
    /// IDs and contents of handles.
    Contents(Vec<(String, String)>),
    /// The repository's ID.
    Repo(String),
    /// The repository is ready.
    Ready,
    Failed { repo_not_found: bool },
}

/// A handle's ID and its content.
pub type Expanded = (Seq<char>, Seq<char>);

/// The view of an [`ExpandReply`].
pub enum ReplyView {
    Contents(Seq<Expanded>),
    Repo(Seq<char>),
    Ready,
    Failed { repo_not_found: bool },
}

impl View for ExpandReply {
    type V = ReplyView;

    open spec fn view(&self) -> ReplyView {
        match *self {
            ExpandReply::Contents(c) => ReplyView::Contents(text::views(c@)),
            ExpandReply::Repo(id) => ReplyView::Repo(id@),
            ExpandReply::Ready => ReplyView::Ready,
            ExpandReply::Failed { repo_not_found } => ReplyView::Failed { repo_not_found },
        }
    }
}

/// The IDs of service handles.
pub open spec fn ids_of(hs: Seq<ServiceHandleView>) -> Seq<Seq<char>> {
    Seq::new(hs.len(), |i: int| hs[i].id)
}

/// The handles that a task is about.
pub open spec fn task_ids(task: TaskView) -> Seq<Seq<char>> {
    match task {
        TaskView::LocalBatch(ids) => ids,
        TaskView::LocalOne(id) => seq![id],
        TaskView::ServiceResolve(hs) => ids_of(hs),
        TaskView::ServiceBatch(_, hs) => ids_of(hs),
        TaskView::ServiceRefresh(hs) => ids_of(hs),
        TaskView::ServiceOne(_, id, _) => seq![id],
        TaskView::UnknownLocal(id) => seq![id],
        TaskView::UnknownResolve(id) => seq![id],
        TaskView::UnknownReady(id, _) => seq![id],
    }
}

/// Whether a task asks for contents.
pub open spec fn asks_contents(task: TaskView) -> bool {
    match task {
        TaskView::LocalBatch(_) => true,
        TaskView::LocalOne(_) => true,
        TaskView::ServiceBatch(_, _) => true,
        TaskView::ServiceOne(_, _, _) => true,
        TaskView::UnknownLocal(_) => true,
        _ => false,
    }
}

/// Whether a task asks for the repository's ID.
pub open spec fn asks_repo(task: TaskView) -> bool {
    match task {
        TaskView::ServiceResolve(_) => true,
        TaskView::ServiceRefresh(_) => true,
        TaskView::UnknownResolve(_) => true,
        _ => false,
    }
}

/// Whether a reply is what its task asks for.
pub open spec fn succeeded(task: TaskView, reply: ReplyView) -> bool {
    if asks_contents(task) {
        reply is Contents
    } else if asks_repo(task) {
        reply is Repo
    } else {
        reply is Ready
    }
}

/// The contents that a reply brings.
pub open spec fn gained(task: TaskView, reply: ReplyView) -> Seq<Expanded> {
    match reply {
        ReplyView::Contents(c) => if asks_contents(task) {
            c
        } else {
            Seq::empty()
        },
        _ => Seq::empty(),
    }
}

/// One task in the local index for each handle.
pub open spec fn local_ones(ids: Seq<Seq<char>>) -> Seq<TaskView> {
    Seq::new(ids.len(), |i: int| TaskView::LocalOne(ids[i]))
}

/// One task at the service for each handle, in its own repository where that is
/// known.
pub open spec fn own_ones(repo: Seq<char>, hs: Seq<ServiceHandleView>) -> Seq<TaskView> {
    Seq::new(
        hs.len(),
        |i: int|
            TaskView::ServiceOne(
                match hs[i].repo_id {
                    Some(own) => own,
                    None => repo,
                },
                hs[i].id,
                hs[i].generation,
            ),
    )
}

/// One task at the service for each handle, all in the given repository.
pub open spec fn repo_ones(repo: Seq<char>, hs: Seq<ServiceHandleView>) -> Seq<TaskView> {
    Seq::new(hs.len(), |i: int| TaskView::ServiceOne(repo, hs[i].id, hs[i].generation))
}

/// What is asked next on account of a reply.
pub open spec fn follow_up(task: TaskView, reply: ReplyView) -> Seq<TaskView> {
    match (task, reply) {
        (TaskView::LocalBatch(_), ReplyView::Contents(_)) => Seq::empty(),
        (TaskView::LocalBatch(ids), _) => local_ones(ids),
        (TaskView::ServiceResolve(hs), ReplyView::Repo(repo)) => seq![
            TaskView::ServiceBatch(repo, hs),
        ],
        (TaskView::ServiceBatch(_, _), ReplyView::Contents(_)) => Seq::empty(),
        (TaskView::ServiceBatch(_, hs), ReplyView::Failed { repo_not_found: true }) => seq![
            TaskView::ServiceRefresh(hs),
        ],
        (TaskView::ServiceBatch(repo, hs), _) => own_ones(repo, hs),
        (TaskView::ServiceRefresh(hs), ReplyView::Repo(repo)) => repo_ones(repo, hs),
        (TaskView::UnknownLocal(_), ReplyView::Contents(_)) => Seq::empty(),
        (TaskView::UnknownLocal(id), _) => seq![TaskView::UnknownResolve(id)],
        (TaskView::UnknownResolve(id), ReplyView::Repo(repo)) => seq![
            TaskView::UnknownReady(id, repo),
        ],
        (TaskView::UnknownReady(id, repo), ReplyView::Ready) => seq![
            TaskView::ServiceOne(repo, id, None),
        ],
        _ => Seq::empty(),
    }
}

/// The handles that are given up on account of a reply: those of a task that did
/// not succeed and is not tried in another way.
pub open spec fn lost(task: TaskView, reply: ReplyView) -> Seq<Seq<char>> {
    if succeeded(task, reply) || task is LocalBatch || task is ServiceBatch
        || task is UnknownLocal {
        Seq::empty()
    } else {
        task_ids(task)
    }
}

/// The state of an expansion: what is still to be asked, and what came of the
/// rest.
pub struct RunView {
    pub tasks: Seq<TaskView>,
    pub contents: Seq<Expanded>,
    pub failed_ids: Seq<Seq<char>>,
}

/// The state after the reply to the first task.
pub open spec fn after_reply(run: RunView, reply: ReplyView) -> RunView {
    let task = run.tasks[0];
    RunView {
        tasks: follow_up(task, reply) + run.tasks.drop_first(),
        contents: run.contents + gained(task, reply),
        failed_ids: run.failed_ids + lost(task, reply),
    }
}

/// Where a handle came from, as far as that is known.
pub open spec fn origin(s: TrackerState, repo_key: Seq<char>, id: Seq<char>) -> Option<
    HandleProvenance,
> {
    capped_map::value_of(s.provenance.pairs, (repo_key, id))
}

/// The handles that came from the local index.
pub open spec fn local_ids(s: TrackerState, repo_key: Seq<char>, ids: Seq<Seq<char>>) -> Seq<
    Seq<char>,
>
    decreases ids.len(),
{
    if ids.len() == 0 {
        Seq::empty()
    } else {
        let before = local_ids(s, repo_key, ids.drop_last());
        match origin(s, repo_key, ids.last()) {
            Some(p) if p.source == HandleSource::Local => before.push(ids.last()),
            _ => before,
        }
    }
}

/// The handles that came from the service.
pub open spec fn service_handles(s: TrackerState, repo_key: Seq<char>, ids: Seq<Seq<char>>) -> Seq<
    ServiceHandleView,
>
    decreases ids.len(),
{
    if ids.len() == 0 {
        Seq::empty()
    } else {
        let before = service_handles(s, repo_key, ids.drop_last());
        match origin(s, repo_key, ids.last()) {
            Some(p) if p.source == HandleSource::Service => before.push(
                ServiceHandleView {
                    id: ids.last(),
                    generation: p.generation,
                    repo_id: text::opt_view(p.repo_id),
                },
            ),
            _ => before,
        }
    }
}

/// The handles of unknown provenance.
pub open spec fn unknown_ids(s: TrackerState, repo_key: Seq<char>, ids: Seq<Seq<char>>) -> Seq<
    Seq<char>,
>
    decreases ids.len(),
{
    if ids.len() == 0 {
        Seq::empty()
    } else {
        let before = unknown_ids(s, repo_key, ids.drop_last());
        if origin(s, repo_key, ids.last()) is None {
            before.push(ids.last())
        } else {
            before
        }
    }
}

/// What is asked at first: the local handles together, the service handles
/// together, then those of unknown provenance one by one.
pub open spec fn planned_tasks(
    local: Seq<Seq<char>>,
    service: Seq<ServiceHandleView>,
    unknown: Seq<Seq<char>>,
) -> Seq<TaskView> {
    let first = if local.len() > 0 {
        seq![TaskView::LocalBatch(local)]
    } else {
        Seq::empty()
    };
    let second = if service.len() > 0 {
        seq![TaskView::ServiceResolve(service)]
    } else {
        Seq::empty()
    };
    first + second + Seq::new(unknown.len(), |i: int| TaskView::UnknownLocal(unknown[i]))
}

/// The state in which the expansion of the given handles starts.
pub open spec fn planned(s: TrackerState, repo_key: Seq<char>, ids: Seq<Seq<char>>) -> RunView {
    let unique = strings::distinct_spec(ids);
    RunView {
        tasks: planned_tasks(
            local_ids(s, repo_key, unique),
            service_handles(s, repo_key, unique),
            unknown_ids(s, repo_key, unique),
        ),
        contents: Seq::empty(),
        failed_ids: Seq::empty(),
    }
}

/// The generation that a batch is asked for: that of its first handle.
pub fn batch_generation(handles: &Vec<ServiceHandle>) -> (r: Option<u64>)
    ensures
        r == (if handles@.len() > 0 {
            handles@[0].generation
        } else {
            None
        }),
{
    if handles.len() > 0 {
        handles[0].generation
    } else {
        None
    }
}

/// The IDs of service handles.
pub fn handle_ids_of(handles: &Vec<ServiceHandle>) -> (r: Vec<String>)
    ensures
        text::views(r@) == ids_of(text::views(handles@)),
{
    let mut ids: Vec<String> = Vec::new();
    let ghost all = ids_of(text::views(handles@));
    let mut i: usize = 0;
    assert(text::views(ids@) =~= all.take(0));
    while i < handles.len()
        invariant
            i <= handles@.len(),
            all == ids_of(text::views(handles@)),
            text::views(ids@) == all.take(i as int),
        decreases handles@.len() - i,
    {
        proof {
            text::lemma_views_push(ids@, handles@[i as int].id);
            assert(all.take(i + 1) =~= all.take(i as int).push(handles@[i as int].id@));
        }
        ids.push(handles[i].id.clone());
        i = i + 1;
    }
    assert(all.take(handles@.len() as int) =~= all);
    ids
}

fn local_one_tasks(ids: &Vec<String>) -> (r: Vec<ExpandTask>)
    ensures
        text::views(r@) == local_ones(text::views(ids@)),
{
    let mut tasks: Vec<ExpandTask> = Vec::new();
    let ghost all = local_ones(text::views(ids@));
    let mut i: usize = 0;
    assert(text::views(tasks@) =~= all.take(0));
    while i < ids.len()
        invariant
            i <= ids@.len(),
            all == local_ones(text::views(ids@)),
            text::views(tasks@) == all.take(i as int),
        decreases ids@.len() - i,
    {
        let task: ExpandTask = ExpandTask::LocalOne(ids[i].clone());
        proof {
            text::lemma_views_push(tasks@, task);
            assert(all.take(i + 1) =~= all.take(i as int).push(task@));
        }
        tasks.push(task);
        i = i + 1;
    }
    assert(all.take(ids@.len() as int) =~= all);
    tasks
}

fn service_one_tasks(repo: &str, handles: &Vec<ServiceHandle>, own: bool) -> (r: Vec<ExpandTask>)
    ensures
        text::views(r@) == (if own {
            own_ones(repo@, text::views(handles@))
        } else {
            repo_ones(repo@, text::views(handles@))
        }),
{
    let mut tasks: Vec<ExpandTask> = Vec::new();
    let ghost all = if own {
        own_ones(repo@, text::views(handles@))
    } else {
        repo_ones(repo@, text::views(handles@))
    };
    let mut i: usize = 0;
    assert(text::views(tasks@) =~= all.take(0));
    while i < handles.len()
        invariant
            i <= handles@.len(),
            all == (if own {
                own_ones(repo@, text::views(handles@))
            } else {
                repo_ones(repo@, text::views(handles@))
            }),
            text::views(tasks@) == all.take(i as int),
        decreases handles@.len() - i,
    {
        let target: String = match &handles[i].repo_id {
            Some(id) if own => id.clone(),
            _ => repo.to_owned(),
        };
        let task: ExpandTask = ExpandTask::ServiceOne(
            target,
            handles[i].id.clone(),
            handles[i].generation,
        );
        proof {
            text::lemma_views_push(tasks@, task);
            assert(all.take(i + 1) =~= all.take(i as int).push(task@));
        }
        tasks.push(task);
        i = i + 1;
    }
    assert(all.take(handles@.len() as int) =~= all);
    tasks
}

fn one_task(task: ExpandTask) -> (r: Vec<ExpandTask>)
    ensures
        text::views(r@) == seq![task@],
{
    let mut tasks: Vec<ExpandTask> = Vec::new();
    proof {
        text::lemma_views_push(tasks@, task);
    }
    tasks.push(task);
    assert(text::views(tasks@) =~= seq![task@]);
    tasks
}

/// What is asked next on account of a reply to a task.
fn next_tasks(task: ExpandTask, reply: &ExpandReply) -> (r: Vec<ExpandTask>)
    ensures
        text::views(r@) == follow_up(task@, reply@),
{
    let mut tasks: Vec<ExpandTask> = Vec::new();
    match (task, reply) {
        (ExpandTask::LocalBatch(_), ExpandReply::Contents(_)) => {},
        (ExpandTask::LocalBatch(ids), _) => {
            tasks = local_one_tasks(&ids);
        },
        (ExpandTask::ServiceResolve(hs), ExpandReply::Repo(repo)) => {
            tasks = one_task(ExpandTask::ServiceBatch(repo.clone(), hs));
        },
        (ExpandTask::ServiceBatch(_, _), ExpandReply::Contents(_)) => {},
        (ExpandTask::ServiceBatch(_, hs), ExpandReply::Failed { repo_not_found: true }) => {
            tasks = one_task(ExpandTask::ServiceRefresh(hs));
        },
        (ExpandTask::ServiceBatch(repo, hs), _) => {
            tasks = service_one_tasks(repo.as_str(), &hs, true);
        },
        (ExpandTask::ServiceRefresh(hs), ExpandReply::Repo(repo)) => {
            tasks = service_one_tasks(repo.as_str(), &hs, false);
        },
        (ExpandTask::UnknownLocal(_), ExpandReply::Contents(_)) => {},
        (ExpandTask::UnknownLocal(id), _) => {
            tasks = one_task(ExpandTask::UnknownResolve(id));
        },
        (ExpandTask::UnknownResolve(id), ExpandReply::Repo(repo)) => {
            tasks = one_task(ExpandTask::UnknownReady(id, repo.clone()));
        },
        (ExpandTask::UnknownReady(id, repo), ExpandReply::Ready) => {
            tasks = one_task(ExpandTask::ServiceOne(repo, id, None));
        },
        _ => {},
    }
    assert(text::views(tasks@) =~= follow_up(task@, reply@));
    tasks
}

/// The handles that are given up on account of a reply to a task.
fn lost_ids(task: &ExpandTask, reply: &ExpandReply) -> (r: Vec<String>)
    ensures
        text::views(r@) == lost(task@, reply@),
{
    let mut ids: Vec<String> = Vec::new();
    match (task, reply) {
        (ExpandTask::LocalOne(_), ExpandReply::Contents(_)) => {},
        (ExpandTask::ServiceOne(_, _, _), ExpandReply::Contents(_)) => {},
        (ExpandTask::ServiceResolve(_), ExpandReply::Repo(_)) => {},
        (ExpandTask::ServiceRefresh(_), ExpandReply::Repo(_)) => {},
        (ExpandTask::UnknownResolve(_), ExpandReply::Repo(_)) => {},
        (ExpandTask::UnknownReady(_, _), ExpandReply::Ready) => {},
        (ExpandTask::LocalOne(id), _) => {
            ids.push(id.clone());
        },
        (ExpandTask::ServiceOne(_, id, _), _) => {
            ids.push(id.clone());
        },
        (ExpandTask::UnknownResolve(id), _) => {
            ids.push(id.clone());
        },
        (ExpandTask::UnknownReady(id, _), _) => {
            ids.push(id.clone());
        },
        (ExpandTask::ServiceResolve(hs), _) => {
            ids = handle_ids_of(hs);
        },
        (ExpandTask::ServiceRefresh(hs), _) => {
            ids = handle_ids_of(hs);
        },
        _ => {},
    }
    assert(text::views(ids@) =~= lost(task@, reply@));
    ids
}

/// The contents in a reply.
fn reply_contents(reply: ExpandReply) -> (r: Vec<(String, String)>)
    ensures
        text::views(r@) == (match reply@ {
            ReplyView::Contents(c) => c,
            _ => Seq::empty(),
        }),
{
    match reply {
        ExpandReply::Contents(c) => c,
        _ => {
            let none: Vec<(String, String)> = Vec::new();
            assert(text::views(none@) =~= Seq::empty());
            none
        },
    }
}

/// An expansion under way. The caller does what [`ExpandRun::next`] says and
/// hands in what came of it, until nothing is left.
pub struct ExpandRun {
    pub tasks: Vec<ExpandTask>,
    pub contents: Vec<(String, String)>,
    pub failed_ids: Vec<String>,
}

impl View for ExpandRun {
    type V = RunView;

    open spec fn view(&self) -> RunView {
        RunView {
            tasks: text::views(self.tasks@),
            contents: text::views(self.contents@),
            failed_ids: text::views(self.failed_ids@),
        }
    }
}

impl ExpandRun {
    /// Starts the expansion of handles: repetitions are dropped, and each handle
    /// goes where its provenance says.
    pub fn plan(tracker: &ProvenanceTracker, repo_key: &str, handle_ids: &Vec<String>) -> (r:
        ExpandRun)
        requires
            tracker.state().inv(),
        ensures
            r@ == planned(tracker.state(), repo_key@, text::views(handle_ids@)),
    {
        let unique: Vec<String> = distinct_strings(handle_ids);
        let ghost all = text::views(unique@);
        let ghost s = tracker.state();
        let mut local: Vec<String> = Vec::new();
        let mut service: Vec<ServiceHandle> = Vec::new();
        let mut unknown: Vec<ExpandTask> = Vec::new();
        let ghost mut unknown_seen: Seq<Seq<char>> = Seq::empty();
        let mut i: usize = 0;
        proof {
            assert(text::views(local@) =~= local_ids(s, repo_key@, all.take(0)));
            assert(text::views(service@) =~= service_handles(s, repo_key@, all.take(0)));
            assert(unknown_seen =~= unknown_ids(s, repo_key@, all.take(0)));
            assert(text::views(unknown@) =~= Seq::new(
                unknown_seen.len(),
                |i: int| TaskView::UnknownLocal(unknown_seen[i]),
            ));
        }
        while i < unique.len()
            invariant
                i <= unique@.len(),
                all == text::views(unique@),
                s == tracker.state(),
                s.inv(),
                text::views(local@) == local_ids(s, repo_key@, all.take(i as int)),
                text::views(service@) == service_handles(s, repo_key@, all.take(i as int)),
                unknown_seen == unknown_ids(s, repo_key@, all.take(i as int)),
                text::views(unknown@) == Seq::new(
                    unknown_seen.len(),
                    |i: int| TaskView::UnknownLocal(unknown_seen[i]),
                ),
            decreases unique@.len() - i,
        {
            let id: &String = &unique[i];
            proof {
                assert(all.take(i + 1).drop_last() =~= all.take(i as int));
                assert(all.take(i + 1).last() == id@);
            }
            match tracker.get(repo_key, id.as_str()) {
                Some(p) => match p.source {
                    HandleSource::Local => {
                        proof {
                            text::lemma_views_push(local@, *id);
                        }
                        local.push(id.clone());
                    },
                    HandleSource::Service => {
                        let handle: ServiceHandle = ServiceHandle {
                            id: id.clone(),
                            generation: p.generation,
                            repo_id: p.repo_id.clone(),
                        };
                        proof {
                            text::lemma_views_push(service@, handle);
                        }
                        service.push(handle);
                    },
                },
                None => {
                    let task: ExpandTask = ExpandTask::UnknownLocal(id.clone());
                    proof {
                        text::lemma_views_push(unknown@, task);
                        unknown_seen = unknown_seen.push(id@);
                        assert(text::views(unknown@).push(task@) =~= Seq::new(
                            unknown_seen.len(),
                            |i: int| TaskView::UnknownLocal(unknown_seen[i]),
                        ));
                    }
                    unknown.push(task);
                },
            }
            i = i + 1;
        }
        assert(all.take(unique@.len() as int) =~= all);
        let ghost local_views = text::views(local@);
        let ghost service_views = text::views(service@);
        let mut tasks: Vec<ExpandTask> = Vec::new();
        if local.len() > 0 {
            tasks.push(ExpandTask::LocalBatch(local));
        }
        if service.len() > 0 {
            tasks.push(ExpandTask::ServiceResolve(service));
        }
        let ghost head = tasks@;
        let ghost tail = unknown@;
        tasks.append(&mut unknown);
        proof {
            text::lemma_views_add(head, tail);
            assert(text::views(tasks@) =~= planned_tasks(local_views, service_views, unknown_seen));
        }
        let run: ExpandRun = ExpandRun { tasks, contents: Vec::new(), failed_ids: Vec::new() };
        assert(run@.contents =~= Seq::empty());
        assert(run@.failed_ids =~= Seq::empty());
        run
    }

    /// What to do next.
    pub fn next(&self) -> (r: Option<&ExpandTask>)
        ensures
            match r {
                Some(task) => self@.tasks.len() > 0 && task@ == self@.tasks[0],
                None => self@.tasks.len() == 0,
            },
    {
        if self.tasks.len() > 0 {
            Some(&self.tasks[0])
        } else {
            None
        }
    }

    /// Takes in what came of the first task.
    pub fn answer(&mut self, reply: ExpandReply)
        requires
            old(self)@.tasks.len() > 0,
        ensures
            final(self)@ == after_reply(old(self)@, reply@),
    {
        let ghost start = self@;
        let task: ExpandTask = self.tasks.remove(0);
        let ghost task_view = task@;
        let ghost reply_view = reply@;
        proof {
            assert(task_view == start.tasks[0]);
            assert(text::views(self.tasks@) =~= start.tasks.drop_first());
        }
        let lost: Vec<String> = lost_ids(&task, &reply);
        extend_strings(&mut self.failed_ids, &lost);
        let brings: bool = match &task {
            ExpandTask::LocalBatch(_) => true,
            ExpandTask::LocalOne(_) => true,
            ExpandTask::ServiceBatch(_, _) => true,
            ExpandTask::ServiceOne(_, _, _) => true,
            ExpandTask::UnknownLocal(_) => true,
            _ => false,
        };
        let mut tasks: Vec<ExpandTask> = next_tasks(task, &reply);
        proof {
            text::lemma_views_add(tasks@, self.tasks@);
        }
        let ghost follow = tasks@;
        let ghost rest = self.tasks@;
        tasks.append(&mut self.tasks);
        assert(tasks@ =~= follow + rest);
        self.tasks = tasks;
        let mut contents: Vec<(String, String)> = if brings {
            reply_contents(reply)
        } else {
            Vec::new()
        };
        let ghost brought = contents@;
        proof {
            assert(text::views(brought) =~= gained(task_view, reply_view));
            text::lemma_views_add(self.contents@, brought);
        }
        self.contents.append(&mut contents);
        proof {
            let end = after_reply(start, reply_view);
            assert(self@.tasks =~= end.tasks);
            assert(self@.contents =~= end.contents);
            assert(self@.failed_ids =~= end.failed_ids);
        }
    }

    /// The contents and the handles that failed, or an error where every handle
    /// failed.
    pub fn finish(self) -> (r: Result<ExpandOutcome, CanopyError>)
        ensures
            match r {
                Ok(outcome) => {
                    &&& self@.contents.len() > 0 || self@.failed_ids.len() == 0
                    &&& text::views(outcome.contents@) == self@.contents
                    &&& text::views(outcome.failed_ids@) == self@.failed_ids
                },
                Err(e) => {
                    &&& self@.contents.len() == 0 && self@.failed_ids.len() > 0
                    &&& (e matches CanopyError::HandleNotFound(ids) && ids@ == strings::join_spec(
                        self@.failed_ids,
                        ", "@,
                    ))
                },
            },
    {
        if self.contents.len() == 0 && self.failed_ids.len() > 0 {
            return Err(CanopyError::HandleNotFound(join(&self.failed_ids, ", ")));
        }
        Ok(ExpandOutcome { contents: self.contents, failed_ids: self.failed_ids })
    }
}

// ---------------------------------------------------------------------------
// Laws
// ---------------------------------------------------------------------------

/// The handles that a list of tasks is about.
pub open spec fn all_ids(tasks: Seq<TaskView>) -> Seq<Seq<char>>
    decreases tasks.len(),
{
    if tasks.len() == 0 {
        Seq::empty()
    } else {
        task_ids(tasks[0]) + all_ids(tasks.drop_first())
    }
}

/// The handles for which a reply brings contents.
pub open spec fn answered(task: TaskView, reply: ReplyView) -> Seq<Seq<char>> {
    if asks_contents(task) && reply is Contents {
        task_ids(task)
    } else {
        Seq::empty()
    }
}

/// The state after replies to one task after the other.
pub open spec fn after_replies(run: RunView, replies: Seq<ReplyView>) -> RunView
    decreases replies.len(),
{
    if replies.len() == 0 || run.tasks.len() == 0 {
        run
    } else {
        after_replies(after_reply(run, replies[0]), replies.drop_first())
    }
}

/// The handles for which one of the replies brings contents.
pub open spec fn all_answered(run: RunView, replies: Seq<ReplyView>) -> Seq<Seq<char>>
    decreases replies.len(),
{
    if replies.len() == 0 || run.tasks.len() == 0 {
        Seq::empty()
    } else {
        answered(run.tasks[0], replies[0]) + all_answered(
            after_reply(run, replies[0]),
            replies.drop_first(),
        )
    }
}

proof fn lemma_add_ids(a: Seq<Seq<char>>, b: Seq<Seq<char>>)
    ensures
        (a + b).to_multiset() == a.to_multiset().add(b.to_multiset()),
{
    vstd::seq_lib::lemma_multiset_commutative(a, b);
}

proof fn lemma_all_ids_add(a: Seq<TaskView>, b: Seq<TaskView>)
    ensures
        all_ids(a + b) == all_ids(a) + all_ids(b),
    decreases a.len(),
{
    if a.len() == 0 {
        assert(a + b =~= b);
        assert(all_ids(a) + all_ids(b) =~= all_ids(b));
    } else {
        assert((a + b).drop_first() =~= a.drop_first() + b);
        lemma_all_ids_add(a.drop_first(), b);
        assert(all_ids(a + b) =~= all_ids(a) + all_ids(b));
    }
}

/// Tasks that are about one handle each are about those handles.
proof fn lemma_single_ids(tasks: Seq<TaskView>, ids: Seq<Seq<char>>)
    requires
        tasks.len() == ids.len(),
        forall|i: int| 0 <= i < tasks.len() ==> task_ids(#[trigger] tasks[i]) == seq![ids[i]],
    ensures
        all_ids(tasks) == ids,
    decreases tasks.len(),
{
    if tasks.len() > 0 {
        let rest = tasks.drop_first();
        assert forall|i: int| 0 <= i < rest.len() implies task_ids(#[trigger] rest[i]) == seq![
            ids.drop_first()[i],
        ] by {
            assert(rest[i] == tasks[i + 1]);
        }
        lemma_single_ids(rest, ids.drop_first());
        assert(task_ids(tasks[0]) == seq![ids[0]]);
        assert(seq![ids[0]] + ids.drop_first() =~= ids);
    }
}

/// Where a task is not given up and brings no contents, its handles are those of
/// what is asked next.
proof fn lemma_follow_up_ids(task: TaskView, reply: ReplyView)
    ensures
        all_ids(follow_up(task, reply)) + lost(task, reply) + answered(task, reply) == task_ids(
            task,
        ),
{
    let follow = follow_up(task, reply);
    reveal_with_fuel(all_ids, 2);
    match (task, reply) {
        (TaskView::LocalBatch(_), ReplyView::Contents(_)) => {},
        (TaskView::LocalBatch(ids), _) => {
            lemma_single_ids(follow, ids);
        },
        (TaskView::ServiceBatch(_, _), ReplyView::Contents(_)) => {},
        (TaskView::ServiceBatch(_, hs), ReplyView::Failed { repo_not_found: true }) => {},
        (TaskView::ServiceBatch(repo, hs), _) => {
            lemma_single_ids(follow, ids_of(hs));
        },
        (TaskView::ServiceRefresh(hs), ReplyView::Repo(repo)) => {
            lemma_single_ids(follow, ids_of(hs));
        },
        _ => {},
    }
    assert(all_ids(follow) + lost(task, reply) + answered(task, reply) =~= task_ids(task));
}

/// A reply loses no handle and brings none up: the handles of the first task are
/// answered, given up or asked for again, each as often as it stood there.
pub proof fn law_reply_accounts(run: RunView, reply: ReplyView)
    requires
        run.tasks.len() > 0,
    ensures
        all_ids(run.tasks).to_multiset().add(run.failed_ids.to_multiset()) == all_ids(
            after_reply(run, reply).tasks,
        ).to_multiset().add(after_reply(run, reply).failed_ids.to_multiset()).add(
            answered(run.tasks[0], reply).to_multiset(),
        ),
{
    let task = run.tasks[0];
    let rest = run.tasks.drop_first();
    let follow = follow_up(task, reply);
    lemma_all_ids_add(follow, rest);
    lemma_follow_up_ids(task, reply);
    lemma_add_ids(task_ids(task), all_ids(rest));
    lemma_add_ids(all_ids(follow), all_ids(rest));
    lemma_add_ids(all_ids(follow) + lost(task, reply), answered(task, reply));
    lemma_add_ids(all_ids(follow), lost(task, reply));
    lemma_add_ids(run.failed_ids, lost(task, reply));
    let end = after_reply(run, reply);
    assert(all_ids(run.tasks).to_multiset().add(run.failed_ids.to_multiset()) =~= all_ids(
        end.tasks,
    ).to_multiset().add(end.failed_ids.to_multiset()).add(answered(task, reply).to_multiset()));
}

/// Whatever the replies are, every handle that was asked for is answered, given
/// up or still to be asked for, and once nothing is left to ask, exactly those
/// that no reply brought contents for have failed.
pub proof fn law_handles_accounted(run: RunView, replies: Seq<ReplyView>)
    ensures
        all_ids(run.tasks).to_multiset().add(run.failed_ids.to_multiset()) == all_ids(
            after_replies(run, replies).tasks,
        ).to_multiset().add(after_replies(run, replies).failed_ids.to_multiset()).add(
            all_answered(run, replies).to_multiset(),
        ),
        after_replies(run, replies).tasks.len() == 0 ==> all_ids(run.tasks).to_multiset().add(
            run.failed_ids.to_multiset(),
        ) == after_replies(run, replies).failed_ids.to_multiset().add(
            all_answered(run, replies).to_multiset(),
        ),
    decreases replies.len(),
{
    broadcast use vstd::seq_lib::group_to_multiset_ensures;

    let end = after_replies(run, replies);
    let total = all_ids(run.tasks).to_multiset().add(run.failed_ids.to_multiset());
    assert(Seq::<Seq<char>>::empty().to_multiset() =~= Multiset::empty());
    if replies.len() == 0 || run.tasks.len() == 0 {
        assert(total =~= total.add(Multiset::empty()));
    } else {
        let next = after_reply(run, replies[0]);
        let rest = replies.drop_first();
        let here = answered(run.tasks[0], replies[0]);
        law_reply_accounts(run, replies[0]);
        law_handles_accounted(next, rest);
        lemma_add_ids(here, all_answered(next, rest));
        assert(total =~= all_ids(end.tasks).to_multiset().add(end.failed_ids.to_multiset()).add(
            all_answered(run, replies).to_multiset(),
        ));
    }
    if end.tasks.len() == 0 {
        assert(Multiset::<Seq<char>>::empty().add(end.failed_ids.to_multiset()).add(
            all_answered(run, replies).to_multiset(),
        ) =~= end.failed_ids.to_multiset().add(all_answered(run, replies).to_multiset()));
    }
}

proof fn lemma_split_by_origin(s: TrackerState, repo_key: Seq<char>, ids: Seq<Seq<char>>)
    ensures
        local_ids(s, repo_key, ids).to_multiset().add(
            ids_of(service_handles(s, repo_key, ids)).to_multiset(),
        ).add(unknown_ids(s, repo_key, ids).to_multiset()) == ids.to_multiset(),
    decreases ids.len(),
{
    broadcast use vstd::seq_lib::group_to_multiset_ensures;

    let l = local_ids(s, repo_key, ids);
    let h = service_handles(s, repo_key, ids);
    let u = unknown_ids(s, repo_key, ids);
    if ids.len() == 0 {
        assert(ids_of(h) =~= Seq::<Seq<char>>::empty());
        assert(ids =~= Seq::<Seq<char>>::empty());
        assert(Seq::<Seq<char>>::empty().to_multiset() =~= Multiset::empty());
        assert(l.to_multiset().add(ids_of(h).to_multiset()).add(u.to_multiset())
            =~= ids.to_multiset());
    } else {
        let rest = ids.drop_last();
        lemma_split_by_origin(s, repo_key, rest);
        assert(ids =~= rest.push(ids.last()));
        let hb = service_handles(s, repo_key, rest);
        if h.len() > hb.len() {
            assert(ids_of(h) =~= ids_of(hb).push(ids.last()));
        }
        assert(l.to_multiset().add(ids_of(h).to_multiset()).add(u.to_multiset())
            =~= ids.to_multiset());
    }
}

/// An expansion starts with every handle that was asked for, once.
pub proof fn law_plan_accounts(s: TrackerState, repo_key: Seq<char>, ids: Seq<Seq<char>>)
    ensures
        all_ids(planned(s, repo_key, ids).tasks).to_multiset() == strings::distinct_spec(
            ids,
        ).to_multiset(),
{
    broadcast use vstd::seq_lib::group_to_multiset_ensures;

    let unique = strings::distinct_spec(ids);
    let l = local_ids(s, repo_key, unique);
    let h = service_handles(s, repo_key, unique);
    let u = unknown_ids(s, repo_key, unique);
    let last = Seq::new(u.len(), |i: int| TaskView::UnknownLocal(u[i]));
    let first = if l.len() > 0 {
        seq![TaskView::LocalBatch(l)]
    } else {
        Seq::empty()
    };
    let second = if h.len() > 0 {
        seq![TaskView::ServiceResolve(h)]
    } else {
        Seq::empty()
    };
    reveal_with_fuel(all_ids, 2);
    assert(all_ids(first) =~= l);
    assert(all_ids(second) =~= ids_of(h));
    lemma_all_ids_add(first + second, last);
    lemma_all_ids_add(first, second);
    lemma_single_ids(last, u);
    lemma_add_ids(l + ids_of(h), u);
    lemma_add_ids(l, ids_of(h));
    lemma_split_by_origin(s, repo_key, unique);
}

/// How many replies a task can lead to.
pub open spec fn rank(task: TaskView) -> nat {
    match task {
        TaskView::LocalBatch(ids) => 1 + ids.len(),
        TaskView::LocalOne(_) => 1,
        TaskView::ServiceResolve(hs) => 3 + hs.len(),
        TaskView::ServiceBatch(_, hs) => 2 + hs.len(),
        TaskView::ServiceRefresh(hs) => 1 + hs.len(),
        TaskView::ServiceOne(_, _, _) => 1,
        TaskView::UnknownLocal(_) => 4,
        TaskView::UnknownResolve(_) => 3,
        TaskView::UnknownReady(_, _) => 2,
    }
}

/// How many replies a list of tasks can lead to.
pub open spec fn total_rank(tasks: Seq<TaskView>) -> nat
    decreases tasks.len(),
{
    if tasks.len() == 0 {
        0
    } else {
        rank(tasks[0]) + total_rank(tasks.drop_first())
    }
}

proof fn lemma_total_rank_add(a: Seq<TaskView>, b: Seq<TaskView>)
    ensures
        total_rank(a + b) == total_rank(a) + total_rank(b),
    decreases a.len(),
{
    if a.len() == 0 {
        assert(a + b =~= b);
    } else {
        assert((a + b).drop_first() =~= a.drop_first() + b);
        lemma_total_rank_add(a.drop_first(), b);
    }
}

proof fn lemma_single_rank(tasks: Seq<TaskView>)
    requires
        forall|i: int| 0 <= i < tasks.len() ==> rank(#[trigger] tasks[i]) == 1,
    ensures
        total_rank(tasks) == tasks.len(),
    decreases tasks.len(),
{
    if tasks.len() > 0 {
        assert(rank(tasks[0]) == 1);
        lemma_single_rank(tasks.drop_first());
    }
}

/// An expansion ends: every reply lowers the number of replies that can still
/// come.
pub proof fn law_reply_shrinks(run: RunView, reply: ReplyView)
    requires
        run.tasks.len() > 0,
    ensures
        total_rank(after_reply(run, reply).tasks) < total_rank(run.tasks),
{
    let task = run.tasks[0];
    let follow = follow_up(task, reply);
    lemma_total_rank_add(follow, run.tasks.drop_first());
    reveal_with_fuel(total_rank, 2);
    match (task, reply) {
        (TaskView::LocalBatch(_), ReplyView::Contents(_)) => {},
        (TaskView::LocalBatch(ids), _) => {
            lemma_single_rank(follow);
        },
        (TaskView::ServiceBatch(_, _), ReplyView::Contents(_)) => {},
        (TaskView::ServiceBatch(_, hs), ReplyView::Failed { repo_not_found: true }) => {},
        (TaskView::ServiceBatch(repo, hs), _) => {
            lemma_single_rank(follow);
        },
        (TaskView::ServiceRefresh(hs), ReplyView::Repo(repo)) => {
            lemma_single_rank(follow);
        },
        _ => {},
    }
}

} // verus!
