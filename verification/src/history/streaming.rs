//! What the loader tells while it runs in the background, and when.

use crate::error::AppError;
use crate::history::loader::{
    all_with_project, project_message, root_message, ProjectLoad, ProjectsRoot,
};
use crate::history::search::search_message;
use crate::history::types::{LoaderMessage, SearchText};
use vstd::prelude::*;

verus! {

/// How far the loader has got.
#[derive(Clone, Copy, Debug, PartialEq, Eq, Structural)]
pub enum LoaderPhase {
    /// The directory that holds the projects is looked for.
    Start,
    /// The projects are listed.
    Listing,
    /// The conversations of the projects are loaded; some projects are left.
    Loading { left: usize, projects: usize },
    /// The texts of the projects are loaded; some projects are left.
    Searching { left: usize },
    /// Nothing is left to tell.
    Ended,
}

/// What happens while the loader runs.
#[derive(Debug)]
pub enum LoaderEvent {
    /// The directory that holds the projects was looked for.
    Root(Result<ProjectsRoot, AppError>),
    /// The projects were listed: how many there are.
    Projects(Result<usize, AppError>),
    /// The conversations of a project were loaded.
    Project(ProjectLoad),
    /// The texts of a project were loaded.
    Texts(Vec<SearchText>),
}

/// The phase after an event. An event that is out of place changes nothing.
pub open spec fn phase_after(phase: LoaderPhase, event: LoaderEvent) -> LoaderPhase {
    match (phase, event) {
        (LoaderPhase::Start, LoaderEvent::Root(root)) => match root {
            Ok(root) => if root.exists {
                LoaderPhase::Listing
            } else {
                LoaderPhase::Ended
            },
            Err(_) => LoaderPhase::Ended,
        },
        (LoaderPhase::Listing, LoaderEvent::Projects(projects)) => match projects {
            Ok(projects) => if projects == 0 {
                LoaderPhase::Ended
            } else {
                LoaderPhase::Loading { left: projects, projects }
            },
            Err(_) => LoaderPhase::Ended,
        },
        (LoaderPhase::Loading { left, projects }, LoaderEvent::Project(_)) => if left > 1 {
            LoaderPhase::Loading { left: (left - 1) as usize, projects }
        } else {
            LoaderPhase::Searching { left: projects }
        },
        (LoaderPhase::Searching { left }, LoaderEvent::Texts(_)) => if left > 1 {
            LoaderPhase::Searching { left: (left - 1) as usize }
        } else {
            LoaderPhase::Ended
        },
        _ => phase,
    }
}

/// Whether messages tell of the load of a project: that it failed, or what it gave, where it gave
/// anything.
pub open spec fn tells_project(load: ProjectLoad, messages: Seq<LoaderMessage>) -> bool {
    match load.conversations {
        None => messages == seq![LoaderMessage::ProjectError],
        Some(conversations) => if conversations@.len() == 0 {
            messages.len() == 0
        } else {
            &&& messages.len() == 1
            &&& messages[0] matches LoaderMessage::Batch(batch)
            &&& batch@ == all_with_project(conversations@, load.fallback)
        },
    }
}

/// Whether messages tell of the texts of a project, where it has any.
pub open spec fn tells_texts(texts: Vec<SearchText>, messages: Seq<LoaderMessage>) -> bool {
    if texts@.len() == 0 {
        messages.len() == 0
    } else {
        messages == seq![LoaderMessage::SearchBatch(texts)]
    }
}

/// Whether messages are those that an event brings about in a phase.
pub open spec fn tells(phase: LoaderPhase, event: LoaderEvent, messages: Seq<LoaderMessage>) -> bool {
    match (phase, event) {
        (LoaderPhase::Start, LoaderEvent::Root(root)) => match root {
            Ok(root) => if root.exists {
                messages.len() == 0
            } else {
                messages == seq![LoaderMessage::Fatal(AppError::ProjectsDirNotFound(root.path))]
            },
            Err(error) => messages == seq![LoaderMessage::Fatal(error)],
        },
        (LoaderPhase::Listing, LoaderEvent::Projects(projects)) => match projects {
            Ok(projects) => if projects == 0 {
                messages == seq![LoaderMessage::Done, LoaderMessage::SearchDone]
            } else {
                messages.len() == 0
            },
            Err(error) => messages == seq![LoaderMessage::Fatal(error)],
        },
        (LoaderPhase::Loading { left, projects }, LoaderEvent::Project(load)) => if left > 1 {
            tells_project(load, messages)
        } else {
            &&& messages.len() > 0
            &&& tells_project(load, messages.drop_last())
            &&& messages.last() == LoaderMessage::Done
        },
        (LoaderPhase::Searching { left }, LoaderEvent::Texts(texts)) => if left > 1 {
            tells_texts(texts, messages)
        } else {
            &&& messages.len() > 0
            &&& tells_texts(texts, messages.drop_last())
            &&& messages.last() == LoaderMessage::SearchDone
        },
        _ => messages.len() == 0,
    }
}

/// The loader's account of its run.
#[derive(Clone, Copy, Debug, PartialEq, Eq, Structural)]
pub struct LoaderStream {
    pub phase: LoaderPhase,
}

impl LoaderStream {
    /// The account of a run that has not started.
    pub fn new() -> (stream: LoaderStream)
        ensures
            stream.phase == LoaderPhase::Start,
    {
        LoaderStream { phase: LoaderPhase::Start }
    }

    /// Takes note of an event, and says what is to be told.
    pub fn advance(&mut self, event: LoaderEvent) -> (messages: Vec<LoaderMessage>)
        ensures
            final(self).phase == phase_after(old(self).phase, event),
            tells(old(self).phase, event, messages@),
    {
        let mut messages: Vec<LoaderMessage> = Vec::new();
        match (self.phase, event) {
            (LoaderPhase::Start, LoaderEvent::Root(root)) => {
                match root_message(root) {
                    Some(message) => {
                        self.phase = LoaderPhase::Ended;
                        messages.push(message);
                        assert(messages@ =~= seq![message]);
                    },
                    None => {
                        self.phase = LoaderPhase::Listing;
                    },
                }
            },
            (LoaderPhase::Listing, LoaderEvent::Projects(projects)) => {
                match projects {
                    Ok(projects) => {
                        if projects == 0 {
                            self.phase = LoaderPhase::Ended;
                            messages.push(LoaderMessage::Done);
                            messages.push(LoaderMessage::SearchDone);
                            assert(messages@ =~= seq![
                                LoaderMessage::Done,
                                LoaderMessage::SearchDone,
                            ]);
                        } else {
                            self.phase = LoaderPhase::Loading { left: projects, projects };
                        }
                    },
                    Err(error) => {
                        self.phase = LoaderPhase::Ended;
                        messages.push(LoaderMessage::Fatal(error));
                        assert(messages@ =~= seq![LoaderMessage::Fatal(error)]);
                    },
                }
            },
            (LoaderPhase::Loading { left, projects }, LoaderEvent::Project(load)) => {
                if let Some(message) = project_message(load) {
                    messages.push(message);
                    assert(messages@ =~= seq![message]);
                }
                if left > 1 {
                    self.phase = LoaderPhase::Loading { left: left - 1, projects };
                } else {
                    self.phase = LoaderPhase::Searching { left: projects };
                    let ghost told = messages@;
                    messages.push(LoaderMessage::Done);
                    assert(messages@.drop_last() =~= told);
                }
            },
            (LoaderPhase::Searching { left }, LoaderEvent::Texts(texts)) => {
                if let Some(message) = search_message(texts) {
                    messages.push(message);
                    assert(messages@ =~= seq![message]);
                }
                if left > 1 {
                    self.phase = LoaderPhase::Searching { left: left - 1 };
                } else {
                    self.phase = LoaderPhase::Ended;
                    let ghost told = messages@;
                    messages.push(LoaderMessage::SearchDone);
                    assert(messages@.drop_last() =~= told);
                }
            },
            _ => {},
        }
        messages
    }
}

/// The phase after a list of events.
pub open spec fn phase_after_all(phase: LoaderPhase, events: Seq<LoaderEvent>) -> LoaderPhase
    decreases events.len(),
{
    if events.len() == 0 {
        phase
    } else {
        phase_after(phase_after_all(phase, events.drop_last()), events.last())
    }
}

/// The loads of as many projects as there are bring the loader to the search for texts, and no
/// fewer do. The end of the loads is told with the last one, so once and behind all batches.
pub proof fn law_done_comes_with_the_last_project(projects: usize, events: Seq<LoaderEvent>)
    requires
        0 < projects,
        events.len() <= projects,
        forall|i: int| 0 <= i < events.len() ==> (#[trigger] events[i]) is Project,
    ensures
        phase_after_all(LoaderPhase::Loading { left: projects, projects }, events) == if events.len()
            < projects {
            LoaderPhase::Loading { left: (projects - events.len()) as usize, projects }
        } else {
            LoaderPhase::Searching { left: projects }
        },
    decreases events.len(),
{
    if events.len() > 0 {
        let rest = events.drop_last();
        assert forall|i: int| 0 <= i < rest.len() implies (#[trigger] rest[i]) is Project by {
            assert(rest[i] == events[i]);
        }
        law_done_comes_with_the_last_project(projects, rest);
        assert(events[events.len() - 1] is Project);
    }
}

/// The texts of as many projects as there are end the loader, and no fewer do. The end is told
/// with the last ones.
pub proof fn law_the_end_comes_with_the_last_texts(projects: usize, events: Seq<LoaderEvent>)
    requires
        0 < projects,
        events.len() <= projects,
        forall|i: int| 0 <= i < events.len() ==> (#[trigger] events[i]) is Texts,
    ensures
        phase_after_all(LoaderPhase::Searching { left: projects }, events) == if events.len()
            < projects {
            LoaderPhase::Searching { left: (projects - events.len()) as usize }
        } else {
            LoaderPhase::Ended
        },
    decreases events.len(),
{
    if events.len() > 0 {
        let rest = events.drop_last();
        assert forall|i: int| 0 <= i < rest.len() implies (#[trigger] rest[i]) is Texts by {
            assert(rest[i] == events[i]);
        }
        law_the_end_comes_with_the_last_texts(projects, rest);
        assert(events[events.len() - 1] is Texts);
    }
}

/// A fatal message is the last one: the loader has ended, and tells nothing more.
pub proof fn law_fatal_messages_are_the_last(
    phase: LoaderPhase,
    event: LoaderEvent,
    messages: Seq<LoaderMessage>,
    later: LoaderEvent,
    more: Seq<LoaderMessage>,
)
    requires
        tells(phase, event, messages),
        exists|i: int| 0 <= i < messages.len() && (#[trigger] messages[i]) is Fatal,
        tells(phase_after(phase, event), later, more),
    ensures
        messages.len() == 1,
        phase_after(phase, event) == LoaderPhase::Ended,
        more.len() == 0,
{
    let i = choose|i: int| 0 <= i < messages.len() && (#[trigger] messages[i]) is Fatal;
    if i < messages.len() - 1 {
        assert(messages.drop_last()[i] == messages[i]);
    }
}

/// Whether a message tells of the load of a project.
pub open spec fn is_load_message(message: LoaderMessage) -> bool {
    message is Batch || message is ProjectError
}

/// Whether messages tell of loads up to a place, of their end at that place, and of texts behind it.
pub open spec fn loads_then_texts(messages: Seq<LoaderMessage>, done: int) -> bool {
    &&& 0 <= done < messages.len()
    &&& forall|i: int| 0 <= i < done ==> is_load_message(#[trigger] messages[i])
    &&& messages[done] is Done
    &&& forall|i: int| done < i < messages.len() ==> (#[trigger] messages[i]) is SearchBatch
}

/// Whether messages are those of a whole run: batches and project errors, then one `Done`, then
/// search batches, and one `SearchDone` at the end.
pub open spec fn is_whole_run(messages: Seq<LoaderMessage>) -> bool {
    &&& messages.len() > 0
    &&& messages.last() is SearchDone
    &&& exists|done: int| #[trigger] loads_then_texts(messages.drop_last(), done)
}

/// Whether messages are a fatal one alone.
pub open spec fn is_fatal_run(messages: Seq<LoaderMessage>) -> bool {
    messages.len() == 1 && messages[0] is Fatal
}

/// Whether the messages told so far are in order for a phase.
pub open spec fn told_in_order(phase: LoaderPhase, messages: Seq<LoaderMessage>) -> bool {
    match phase {
        LoaderPhase::Start | LoaderPhase::Listing => messages.len() == 0,
        LoaderPhase::Loading { left, projects } => forall|i: int|
            0 <= i < messages.len() ==> is_load_message(#[trigger] messages[i]),
        LoaderPhase::Searching { left } => exists|done: int| #[trigger]
            loads_then_texts(messages, done),
        LoaderPhase::Ended => is_whole_run(messages) || is_fatal_run(messages),
    }
}

proof fn lemma_texts_go_on(messages: Seq<LoaderMessage>, texts: Vec<SearchText>, more: Seq<LoaderMessage>)
    requires
        exists|done: int| #[trigger] loads_then_texts(messages, done),
        tells_texts(texts, more),
    ensures
        exists|done: int| #[trigger] loads_then_texts(messages + more, done),
{
    let done = choose|done: int| #[trigger] loads_then_texts(messages, done);
    let all = messages + more;
    assert forall|i: int| 0 <= i < done implies is_load_message(#[trigger] all[i]) by {
        assert(all[i] == messages[i]);
    }
    assert forall|i: int| done < i < all.len() implies (#[trigger] all[i]) is SearchBatch by {
        if i < messages.len() {
            assert(all[i] == messages[i]);
        } else {
            assert(all[i] == more[i - messages.len()]);
        }
    }
    assert(loads_then_texts(all, done));
}

/// What an event tells goes on from what was told before it.
proof fn lemma_told_in_order(
    phase: LoaderPhase,
    messages: Seq<LoaderMessage>,
    event: LoaderEvent,
    more: Seq<LoaderMessage>,
)
    requires
        told_in_order(phase, messages),
        tells(phase, event, more),
    ensures
        told_in_order(phase_after(phase, event), messages + more),
        phase is Searching && phase_after(phase, event) is Ended ==> is_whole_run(messages + more),
        phase is Listing && event == LoaderEvent::Projects(Ok(0)) ==> is_whole_run(messages + more),
{
    let all = messages + more;
    if more.len() == 0 {
        assert(all =~= messages);
    }
    match (phase, event) {
        (LoaderPhase::Start, LoaderEvent::Root(root)) => {
            assert(all =~= more);
        },
        (LoaderPhase::Listing, LoaderEvent::Projects(projects)) => {
            assert(all =~= more);
            if projects == Ok::<usize, AppError>(0) {
                assert(loads_then_texts(all.drop_last(), 0));
            }
        },
        (LoaderPhase::Loading { left, projects }, LoaderEvent::Project(load)) => {
            if left > 1 {
                assert forall|i: int| 0 <= i < all.len() implies is_load_message(
                    #[trigger] all[i],
                ) by {
                    if i < messages.len() {
                        assert(all[i] == messages[i]);
                    } else {
                        assert(all[i] == more[i - messages.len()]);
                    }
                }
            } else {
                let done = all.len() - 1;
                assert forall|i: int| 0 <= i < done implies is_load_message(#[trigger] all[i]) by {
                    if i < messages.len() {
                        assert(all[i] == messages[i]);
                    } else {
                        assert(all[i] == more.drop_last()[i - messages.len()]);
                    }
                }
                assert(loads_then_texts(all, done));
            }
        },
        (LoaderPhase::Searching { left }, LoaderEvent::Texts(texts)) => {
            if left > 1 {
                lemma_texts_go_on(messages, texts, more);
            } else {
                lemma_texts_go_on(messages, texts, more.drop_last());
                assert(all.drop_last() =~= messages + more.drop_last());
            }
        },
        _ => {},
    }
}

/// Whether lists of messages are those that events bring about one after the other.
pub open spec fn tells_all(
    phase: LoaderPhase,
    events: Seq<LoaderEvent>,
    told: Seq<Seq<LoaderMessage>>,
) -> bool {
    &&& told.len() == events.len()
    &&& forall|i: int|
        0 <= i < events.len() ==> tells(
            phase_after_all(phase, #[trigger] events.take(i)),
            events[i],
            told[i],
        )
}

/// Lists of messages as one list.
pub open spec fn all_told(told: Seq<Seq<LoaderMessage>>) -> Seq<LoaderMessage>
    decreases told.len(),
{
    if told.len() == 0 {
        Seq::empty()
    } else {
        all_told(told.drop_last()) + told.last()
    }
}

proof fn lemma_tells_all_but_last(
    phase: LoaderPhase,
    events: Seq<LoaderEvent>,
    told: Seq<Seq<LoaderMessage>>,
)
    requires
        tells_all(phase, events, told),
        events.len() > 0,
    ensures
        tells_all(phase, events.drop_last(), told.drop_last()),
        tells(phase_after_all(phase, events.drop_last()), events.last(), told.last()),
{
    let rest = events.drop_last();
    assert forall|i: int| 0 <= i < rest.len() implies tells(
        phase_after_all(phase, #[trigger] rest.take(i)),
        rest[i],
        told.drop_last()[i],
    ) by {
        assert(rest.take(i) =~= events.take(i));
    }
    assert(events.take(events.len() - 1) =~= rest);
}

/// Whatever happens, and in whatever order, a run tells its messages in order: batches and project
/// errors, then one `Done`, then search batches, then one `SearchDone` at the end; or a fatal
/// message alone. At any time what was told is a start of that.
pub proof fn law_messages_come_in_order(events: Seq<LoaderEvent>, told: Seq<Seq<LoaderMessage>>)
    requires
        tells_all(LoaderPhase::Start, events, told),
    ensures
        told_in_order(phase_after_all(LoaderPhase::Start, events), all_told(told)),
    decreases events.len(),
{
    if events.len() > 0 {
        let rest = events.drop_last();
        lemma_tells_all_but_last(LoaderPhase::Start, events, told);
        law_messages_come_in_order(rest, told.drop_last());
        lemma_told_in_order(
            phase_after_all(LoaderPhase::Start, rest),
            all_told(told.drop_last()),
            events.last(),
            told.last(),
        );
    }
}

/// The events of a run in which nothing fatal happens: the directory is there, the projects are
/// listed, and the conversations and then the texts of each are loaded.
pub open spec fn is_full_run(
    root: ProjectsRoot,
    projects: usize,
    loads: Seq<LoaderEvent>,
    texts: Seq<LoaderEvent>,
) -> bool {
    &&& root.exists
    &&& loads.len() == projects
    &&& texts.len() == projects
    &&& forall|i: int| 0 <= i < loads.len() ==> (#[trigger] loads[i]) is Project
    &&& forall|i: int| 0 <= i < texts.len() ==> (#[trigger] texts[i]) is Texts
}

/// The start of a run in which nothing fatal happens.
pub open spec fn start_events(root: ProjectsRoot, projects: usize) -> Seq<LoaderEvent> {
    seq![LoaderEvent::Root(Ok(root)), LoaderEvent::Projects(Ok(projects))]
}

proof fn lemma_phase_append(phase: LoaderPhase, a: Seq<LoaderEvent>, b: Seq<LoaderEvent>)
    ensures
        phase_after_all(phase, a + b) == phase_after_all(phase_after_all(phase, a), b),
    decreases b.len(),
{
    if b.len() == 0 {
        assert(a + b =~= a);
    } else {
        assert((a + b).drop_last() =~= a + b.drop_last());
        lemma_phase_append(phase, a, b.drop_last());
    }
}

/// A run in which nothing fatal happens ends, and has then told all there is, with one `Done` behind
/// all batches and `SearchDone` last.
pub proof fn law_full_runs_tell_everything(
    root: ProjectsRoot,
    projects: usize,
    loads: Seq<LoaderEvent>,
    texts: Seq<LoaderEvent>,
    told: Seq<Seq<LoaderMessage>>,
)
    requires
        is_full_run(root, projects, loads, texts),
        tells_all(LoaderPhase::Start, start_events(root, projects) + loads + texts, told),
    ensures
        phase_after_all(LoaderPhase::Start, start_events(root, projects) + loads + texts)
            == LoaderPhase::Ended,
        is_whole_run(all_told(told)),
{
    let start = start_events(root, projects);
    let events = start + loads + texts;
    let first = start.drop_last();
    assert(first =~= seq![LoaderEvent::Root(Ok(root))]);
    assert(first.drop_last() =~= Seq::<LoaderEvent>::empty());
    assert(phase_after_all(LoaderPhase::Start, first.drop_last()) == LoaderPhase::Start);
    assert(phase_after_all(LoaderPhase::Start, first) == LoaderPhase::Listing);
    lemma_phase_append(LoaderPhase::Start, start, loads);
    lemma_phase_append(LoaderPhase::Start, start + loads, texts);
    if projects == 0 {
        assert(events =~= start);
        assert(loads =~= Seq::<LoaderEvent>::empty());
    } else {
        law_done_comes_with_the_last_project(projects, loads);
        law_the_end_comes_with_the_last_texts(projects, texts);
    }
    let rest = events.drop_last();
    lemma_tells_all_but_last(LoaderPhase::Start, events, told);
    law_messages_come_in_order(rest, told.drop_last());
    if projects == 0 {
        assert(rest =~= first);
    } else {
        let most = texts.drop_last();
        assert(rest =~= start + loads + most);
        lemma_phase_append(LoaderPhase::Start, start + loads, most);
        assert forall|i: int| 0 <= i < most.len() implies (#[trigger] most[i]) is Texts by {
            assert(most[i] == texts[i]);
        }
        law_the_end_comes_with_the_last_texts(projects, most);
    }
    lemma_told_in_order(
        phase_after_all(LoaderPhase::Start, rest),
        all_told(told.drop_last()),
        events.last(),
        told.last(),
    );
}

} // verus!
