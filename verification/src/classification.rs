//! Which screenshots are classified, and when feedback is learned from.
use crate::anchors::Anchors;
use crate::classifier::Classifier;
use crate::scoring::Input;
use crate::{anchors, text};
use vstd::prelude::*;
use vstd::string::*;

verus! {

/// How many screenshots may be classified at the same time.
pub const CAPACITY: usize = 8;

/// The anchors that the classifier was made of: the database they came from,
/// and their revision.
#[derive(Debug, Clone, Copy, PartialEq, Eq, Structural)]
pub struct AnchorSource {
    pub generation: u64,
    pub revision: i64,
}

/// Leave to classify a screenshot. It is given back when the work is over.
#[derive(Debug, PartialEq, Eq, Structural)]
pub struct JobPermit {
    pub generation: u64,
    pub id: i64,
}

/// What is being classified, and whether feedback is being learned from.
#[derive(Debug)]
pub struct ClassificationState {
    pub active: Vec<(u64, i64)>,
    pub feedback_running: bool,
    pub cache: Option<AnchorSource>,
}

impl Default for ClassificationState {
    fn default() -> (result: Self)
        ensures
            result.wf(),
            result.active@.len() == 0,
            !result.feedback_running,
            result.cache is None,
    {
        ClassificationState { active: Vec::new(), feedback_running: false, cache: None }
    }
}

impl ClassificationState {
    /// No screenshot is classified twice at the same time, and not too many
    /// are.
    pub open spec fn wf(&self) -> bool {
        self.active@.len() <= CAPACITY && self.active@.no_duplicates()
    }

    /// How many more may be classified.
    pub fn available_permits(&self) -> (result: usize)
        requires
            self.wf(),
        ensures
            result == CAPACITY - self.active@.len(),
    {
        CAPACITY - self.active.len()
    }

    fn position(&self, generation: u64, id: i64) -> (result: Option<usize>)
        ensures
            match result {
                Some(at) => at < self.active@.len() && self.active@[at as int] == (generation, id),
                None => !self.active@.contains((generation, id)),
            },
    {
        let mut i: usize = 0;
        while i < self.active.len()
            invariant
                i <= self.active@.len(),
                forall|j: int| 0 <= j < i ==> #[trigger] self.active@[j] != (generation, id),
            decreases self.active@.len() - i,
        {
            if self.active[i].0 == generation && self.active[i].1 == id {
                return Some(i);
            }
            i = i + 1;
        }
        None
    }

    /// Whether a job gets a permit.
    pub open spec fn permitted(
        before: Self,
        after: Self,
        generation: u64,
        id: i64,
        result: Option<JobPermit>,
    ) -> bool {
        &&& after.wf()
        &&& match result {
            Some(permit) => {
                &&& before.active@.len() < CAPACITY
                &&& !before.active@.contains((generation, id))
                &&& permit == (JobPermit { generation, id })
                &&& after.active@ == before.active@.push((generation, id))
                &&& after == (ClassificationState {
                    active: after.active,
                    ..before
                })
            },
            None => {
                &&& before.active@.len() >= CAPACITY || before.active@.contains(
                    (generation, id),
                )
                &&& after == before
            },
        }
    }

    /// Asks for leave to classify a screenshot. It is given unless too many are
    /// being classified, or this one is.
    pub fn permit(&mut self, generation: u64, id: i64) -> (result: Option<JobPermit>)
        requires
            old(self).wf(),
        ensures
            Self::permitted(*old(self), *final(self), generation, id, result),
    {
        if self.active.len() >= CAPACITY {
            return None;
        }
        match self.position(generation, id) {
            Some(_) => None,
            None => {
                self.active.push((generation, id));
                Some(JobPermit { generation, id })
            },
        }
    }

    /// The work on a screenshot is over.
    pub fn release(&mut self, permit: JobPermit)
        requires
            old(self).wf(),
            old(self).active@.contains((permit.generation, permit.id)),
        ensures
            final(self).wf(),
            *final(self) == (ClassificationState { active: final(self).active, ..*old(self) }),
            final(self).active@.len() == old(self).active@.len() - 1,
            forall|key: (u64, i64)| #[trigger]
                final(self).active@.contains(key) == (old(self).active@.contains(key) && key != (
                    permit.generation,
                    permit.id,
                )),
    {
        let ghost before = self.active@;
        let ghost gone = (permit.generation, permit.id);
        match self.position(permit.generation, permit.id) {
            Some(at) => {
                self.active.remove(at);
                proof {
                    let after = self.active@;
                    assert forall|key: (u64, i64)| #[trigger] after.contains(key) == (
                    before.contains(key) && key != gone) by {
                        if after.contains(key) {
                            let i = choose|i: int| 0 <= i < after.len() && after[i] == key;
                            if i < at {
                                assert(before[i] == key);
                            } else {
                                assert(before[i + 1] == key);
                            }
                        }
                        if before.contains(key) && key != gone {
                            let i = choose|i: int| 0 <= i < before.len() && before[i] == key;
                            if i < at {
                                assert(after[i] == key);
                            } else {
                                assert(after[i - 1] == key);
                            }
                        }
                    }
                }
            },
            None => {},
        }
    }

    /// Makes the classifier anew of the anchors that were read, unless it was
    /// made of them already. What it is made of is remembered. Anchors that no
    /// classifier can be made of leave everything as it is.
    pub fn refresh_cache(
        &mut self,
        classifier: &mut Option<Classifier>,
        snapshot: AnchorSource,
        anchors: Anchors,
        item_bytes: usize,
    ) -> (result: Result<(), String>)
        ensures
            ({
                let fault = anchors::fault(
                    anchors::modelled(anchors::entries(anchors)),
                    item_bytes,
                );
                match result {
                    Ok(_) => {
                        &&& *final(self) == (ClassificationState {
                            cache: Some(snapshot),
                            ..*old(self)
                        })
                        &&& if old(self).cache == Some(snapshot) {
                            *final(classifier) == *old(classifier)
                        } else {
                            &&& fault is None
                            &&& *final(classifier) == Some(Classifier { anchors, index: None })
                        }
                    },
                    Err(e) => {
                        &&& old(self).cache != Some(snapshot)
                        &&& fault == Some(e@)
                        &&& *final(self) == *old(self)
                        &&& *final(classifier) == *old(classifier)
                    },
                }
            }),
    {
        let known = match self.cache {
            Some(source) => source.generation == snapshot.generation && source.revision
                == snapshot.revision,
            None => false,
        };
        if !known {
            match Classifier::new(anchors, item_bytes) {
                Ok(made) => {
                    *classifier = Some(made);
                    self.cache = Some(snapshot);
                },
                Err(e) => {
                    return Err(e);
                },
            }
        }
        Ok(())
    }

    /// The classifier belongs to the database that the work began with.
    pub fn check_generation(&self, generation: u64) -> (result: Result<(), String>)
        requires
            self.cache is Some,
        ensures
            match result {
                Ok(_) => self.cache->0.generation == generation,
                Err(e) => self.cache->0.generation != generation && e@
                    == "classification database changed"@,
            },
    {
        check_database(
            match self.cache {
                Some(source) => source.generation,
                None => 0,
            },
            generation,
        )
    }

    /// The anchors were stored, under a new revision, or could not be: then they
    /// are read again the next time.
    pub fn anchors_stored(&mut self, outcome: Result<i64, String>) -> (result: Result<(), String>)
        requires
            old(self).cache is Some,
        ensures
            *final(self) == (ClassificationState { cache: final(self).cache, ..*old(self) }),
            match (outcome, result) {
                (Ok(revision), Ok(_)) => final(self).cache == Some(
                    AnchorSource { generation: old(self).cache->0.generation, revision },
                ),
                (Err(e), Err(told)) => e == told && final(self).cache is None,
                _ => false,
            },
    {
        match outcome {
            Ok(revision) => {
                match self.cache {
                    Some(source) => {
                        self.cache = Some(AnchorSource { generation: source.generation, revision });
                    },
                    None => {},
                }
                Ok(())
            },
            Err(e) => {
                self.cache = None;
                Err(e)
            },
        }
    }

    /// What was learned may be stored only while screenshots may be read
    /// without asking.
    pub fn may_store_lesson(&mut self, authorized: bool) -> (result: Result<(), String>)
        ensures
            match result {
                Ok(_) => authorized && *final(self) == *old(self),
                Err(e) => {
                    &&& !authorized
                    &&& e@ == "authentication required"@
                    &&& *final(self) == (ClassificationState { cache: None, ..*old(self) })
                },
            },
    {
        if !authorized {
            self.cache = None;
            return Err("authentication required".to_owned());
        }
        Ok(())
    }

    /// Learning from feedback begins, unless it is under way or screenshots may
    /// not be read.
    pub fn start_feedback(&mut self, authorized: bool) -> (result: bool)
        ensures
            result == (authorized && !old(self).feedback_running),
            *final(self) == (ClassificationState {
                feedback_running: old(self).feedback_running || authorized,
                ..*old(self)
            }),
    {
        if !authorized {
            return false;
        }
        let running = self.feedback_running;
        self.feedback_running = true;
        !running
    }

    /// Learning from feedback is over.
    pub fn end_feedback(&mut self)
        ensures
            *final(self) == (ClassificationState { feedback_running: false, ..*old(self) }),
    {
        self.feedback_running = false;
    }
}

/// The database is still the one that the work began with.
pub fn check_database(current: u64, wanted: u64) -> (result: Result<(), String>)
    ensures
        match result {
            Ok(_) => current == wanted,
            Err(e) => current != wanted && e@ == "classification database changed"@,
        },
{
    if current != wanted {
        return Err("classification database changed".to_owned());
    }
    Ok(())
}

/// What errors begin with that only say that something else goes first.
pub open spec fn yields() -> Seq<Seq<char>> {
    seq![
        "foreground_busy"@,
        "background_busy"@,
        "foreground_request"@,
        "MAINTENANCE_IN_PROGRESS"@,
        "maintenance"@,
        "classification source changed"@,
        "classification database changed"@,
        "authentication required"@,
    ]
}

/// The error only says that something else goes first.
pub open spec fn is_yield(error: Seq<char>) -> bool {
    exists|i: int| 0 <= i < yields().len() && text::begins(error, #[trigger] yields()[i])
}

/// The error only says that something else goes first: it does not count as a
/// failed attempt.
pub fn scheduling_deferred(error: &str) -> (result: bool)
    ensures
        result == is_yield(error@),
{
    let prefixes: Vec<&'static str> = vec![
        "foreground_busy",
        "background_busy",
        "foreground_request",
        "MAINTENANCE_IN_PROGRESS",
        "maintenance",
        "classification source changed",
        "classification database changed",
        "authentication required",
    ];
    assert(text::views(prefixes@) =~= yields());
    let mut i: usize = 0;
    while i < prefixes.len()
        invariant
            i <= prefixes@.len(),
            text::views(prefixes@) == yields(),
            forall|j: int| 0 <= j < i ==> !text::begins(error@, (#[trigger] prefixes@[j])@),
        decreases prefixes@.len() - i,
    {
        if text::starts_with(error, prefixes[i]) {
            assert(text::begins(error@, text::views(prefixes@)[i as int]));
            return true;
        }
        i = i + 1;
    }
    assert forall|j: int| 0 <= j < yields().len() implies !text::begins(
        error@,
        #[trigger] yields()[j],
    ) by {
        assert(text::views(prefixes@)[j] == prefixes@[j]@);
        assert(!text::begins(error@, prefixes@[j]@));
    }
    false
}

/// A changed database does not count as a failed attempt.
pub proof fn law_changed_database_is_a_yield()
    ensures
        is_yield("classification database changed"@),
        is_yield("authentication required"@),
        is_yield("classification source changed"@),
{
    let list = yields();
    assert(list[6].subrange(0, list[6].len() as int) =~= list[6]);
    assert(text::begins("classification database changed"@, list[6]));
    assert(list[7].subrange(0, list[7].len() as int) =~= list[7]);
    assert(text::begins("authentication required"@, list[7]));
    assert(list[5].subrange(0, list[5].len() as int) =~= list[5]);
    assert(text::begins("classification source changed"@, list[5]));
}

/// A category is looked for only where the user gave none, and categories are
/// wanted. Where nothing is said of it, they are.
pub fn must_classify(user_revision: i64, enabled: Option<bool>) -> (result: bool)
    ensures
        result == (user_revision == 0 && enabled != Some(false)),
{
    user_revision == 0 && (match enabled {
        Some(on) => on,
        None => true,
    })
}

/// The category that is stored: the one that was found, if categories are still
/// wanted then.
pub fn stored_category(found: Option<String>, enabled: Option<bool>) -> (result: Option<String>)
    ensures
        result == if enabled == Some(false) {
            None
        } else {
            found
        },
{
    match enabled {
        Some(on) => if on {
            found
        } else {
            None
        },
        None => found,
    }
}

/// What a screenshot says, for feedback on it. `current` tells whether the
/// database and the screenshot are still the ones that the feedback was given
/// on; the summary is that of the screenshot, if it is still there.
pub fn feedback_input(
    current: bool,
    summary: Option<(Option<String>, Option<String>)>,
    ocr_texts: &Vec<String>,
) -> (result: Result<Input, String>)
    ensures
        match result {
            Ok(input) => {
                &&& current
                &&& summary is Some
                &&& match summary->0 {
                    (title, process) => input.title@ == (match title {
                        Some(t) => t@,
                        None => ""@,
                    }) && input.process_name@ == (match process {
                        Some(p) => p@,
                        None => ""@,
                    }),
                }
                &&& input.ocr_text@ == text::spaced(text::texts(ocr_texts@))
            },
            Err(e) => if !current {
                e@ == "feedback source changed"@
            } else {
                summary is None && e@ == "feedback screenshot is no longer active"@
            },
        },
{
    if !current {
        return Err("feedback source changed".to_owned());
    }
    match summary {
        None => Err("feedback screenshot is no longer active".to_owned()),
        Some((title, process)) => Ok(
            Input {
                title: match title {
                    Some(t) => t,
                    None => "".to_owned(),
                },
                ocr_text: text::join_spaced(ocr_texts),
                process_name: match process {
                    Some(p) => p,
                    None => "".to_owned(),
                },
            },
        ),
    }
}

/// What is done about the next feedback.
#[derive(Debug, Clone, Copy, PartialEq, Eq, Structural)]
pub enum FeedbackStep {
    /// No more is learned from now.
    Stop,
    /// It is learned from.
    Learn,
}

/// A round of learning from feedback: from no more than eight.
#[derive(Debug, Clone, Copy, PartialEq, Eq, Structural)]
pub struct FeedbackRound {
    pub left: u32,
}

impl FeedbackRound {
    pub fn new() -> (result: Self)
        ensures
            result.left == 8,
    {
        FeedbackRound { left: 8 }
    }

    /// Whether the next feedback is to be read at all.
    pub fn may_read(&self, authorized: bool, gate_open: bool) -> (result: bool)
        ensures
            result == (self.left > 0 && authorized && gate_open),
    {
        self.left > 0 && authorized && gate_open
    }

    /// Feedback was read, if there is any.
    pub fn read(&mut self, outcome: Result<bool, String>) -> (result: FeedbackStep)
        requires
            old(self).left > 0,
        ensures
            result == if outcome matches Ok(there) && there {
                FeedbackStep::Learn
            } else {
                FeedbackStep::Stop
            },
            final(self).left == old(self).left - 1,
    {
        self.left = self.left - 1;
        match outcome {
            Ok(there) => if there {
                FeedbackStep::Learn
            } else {
                FeedbackStep::Stop
            },
            Err(_) => FeedbackStep::Stop,
        }
    }
}

/// A job is worked on once at a time: with a permit out for it, it gets no
/// other. At most eight jobs are under way, and below that a new job gets one.
pub proof fn law_jobs_are_worked_on_once(
    first: ClassificationState,
    second: ClassificationState,
    third: ClassificationState,
    generation: u64,
    id: i64,
    permit: Option<JobPermit>,
    again: Option<JobPermit>,
)
    requires
        first.wf(),
        ClassificationState::permitted(first, second, generation, id, permit),
        ClassificationState::permitted(second, third, generation, id, again),
    ensures
        permit is Some ==> again is None,
        first.active@.len() >= 8 ==> permit is None,
        first.active@.len() < 8 && !first.active@.contains((generation, id)) ==> permit == Some(
            JobPermit { generation, id },
        ),
        second.active@.len() <= 8,
{
    if permit is Some {
        assert(second.active@.last() == (generation, id));
    }
}

/// An error is put off only if it begins with the name of something that passes;
/// any other is a failure.
pub proof fn law_only_what_passes_is_put_off(error: Seq<char>)
    ensures
        text::begins(error, "foreground_busy"@) || text::begins(error, "background_busy"@)
            || text::begins(error, "foreground_request"@) || text::begins(
            error,
            "MAINTENANCE_IN_PROGRESS"@,
        ) || text::begins(error, "maintenance"@) || text::begins(
            error,
            "classification source changed"@,
        ) || text::begins(error, "classification database changed"@) || text::begins(
            error,
            "authentication required"@,
        ) <==> is_yield(error),
{
    let names = yields();
    assert(names[0] == "foreground_busy"@ && names[1] == "background_busy"@ && names[2]
        == "foreground_request"@ && names[3] == "MAINTENANCE_IN_PROGRESS"@ && names[4]
        == "maintenance"@ && names[5] == "classification source changed"@ && names[6]
        == "classification database changed"@ && names[7] == "authentication required"@);
    if text::begins(error, names[0]) || text::begins(error, names[1]) || text::begins(
        error,
        names[2],
    ) || text::begins(error, names[3]) || text::begins(error, names[4]) || text::begins(
        error,
        names[5],
    ) || text::begins(error, names[6]) || text::begins(error, names[7]) {
        assert(is_yield(error));
    }
}

} // verus!
