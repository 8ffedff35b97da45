//! Feedback: what is uploaded, and where its outcome is shown.
use vstd::prelude::*;
use crate::name_map::NameMap;

verus! {

// ---------------------------------------------------------------------------
// What is uploaded
// ---------------------------------------------------------------------------

/// A feedback to be uploaded.
pub struct FeedbackUploadParams {
    pub classification: String,
    pub reason: Option<String>,
    pub thread_id: Option<String>,
    pub include_logs: bool,
    pub extra_log_files: Option<Vec<String>>,
    pub tags: Option<NameMap<String>>,
}

/// A feedback to be uploaded. The file of the session goes with it only where logs are included,
/// and the turn that it is about is its only tag.
pub fn build_feedback_upload_params(
    origin_thread_id: Option<String>,
    rollout_path: Option<String>,
    classification: &str,
    reason: Option<String>,
    turn_id: Option<String>,
    include_logs: bool,
) -> (r: FeedbackUploadParams)
    ensures
        r.classification@ == classification@,
        r.reason == reason,
        r.thread_id == origin_thread_id,
        r.include_logs == include_logs,
        r.extra_log_files is Some <==> include_logs && rollout_path is Some,
        r.extra_log_files matches Some(files) ==> files@ == seq![rollout_path->Some_0],
        r.tags is Some <==> turn_id is Some,
        r.tags matches Some(tags) ==> tags@.dom() =~= set!["turn_id"@] && tags@["turn_id"@]
            == turn_id->Some_0,
{
    let extra_log_files = match rollout_path {
        Some(path) => if include_logs {
            let mut files: Vec<String> = Vec::new();
            files.push(path);
            Some(files)
        } else {
            None
        },
        None => None,
    };
    let tags = match turn_id {
        Some(turn_id) => {
            let mut tags: NameMap<String> = NameMap::new();
            tags.insert("turn_id", turn_id);
            Some(tags)
        },
        None => None,
    };
    FeedbackUploadParams {
        classification: classification.to_owned(),
        reason,
        thread_id: origin_thread_id,
        include_logs,
        extra_log_files,
        tags,
    }
}

// ---------------------------------------------------------------------------
// What comes of it
// ---------------------------------------------------------------------------

/// The outcome of a feedback of a category `C`, for an audience `A`: the thread that it was filed
/// under, or an error.
#[derive(Debug, PartialEq, Eq)]
pub struct FeedbackThreadEvent<C, A> {
    pub category: C,
    pub include_logs: bool,
    pub feedback_audience: A,
    pub result: Result<String, String>,
}

/// An event of a thread: a request `Q` of the server, the outcome `F` of a feedback, or another one.
#[derive(Clone, Debug, PartialEq, Eq)]
pub enum ThreadBufferedEvent<Q, F, N> {
    Request { request: Q },
    FeedbackSubmission { event: F },
    Other { event: N },
}

/// The latest events of a thread, and whether the thread is shown.
#[derive(Clone, Debug, PartialEq, Eq)]
pub struct ThreadEventStore<Q, F, N> {
    pub buffer: Vec<ThreadBufferedEvent<Q, F, N>>,
    pub capacity: usize,
    pub active: bool,
}

/// What is left to do once an event is in the buffer.
#[derive(Clone, Debug, PartialEq, Eq)]
pub struct Enqueued<Q> {
    /// A request of the server that is no longer in the buffer.
    pub evicted_request: Option<Q>,
    /// Whether the event is sent to the thread at once.
    pub should_send: bool,
}

/// The request in an event.
pub open spec fn request_in<Q, F, N>(event: ThreadBufferedEvent<Q, F, N>) -> Option<Q> {
    match event {
        ThreadBufferedEvent::Request { request } => Some(request),
        _ => None,
    }
}

impl<Q, F, N> ThreadEventStore<Q, F, N> {
    /// No more events than there is room for.
    pub open spec fn wf(self) -> bool {
        self.buffer@.len() <= self.capacity
    }

    /// The events once this outcome of a feedback is put in, before any is given up.
    pub open spec fn with_feedback(self, event: F) -> Seq<ThreadBufferedEvent<Q, F, N>> {
        self.buffer@.push(ThreadBufferedEvent::FeedbackSubmission { event })
    }

    /// Puts in the outcome of a feedback. Where there are then more events than there is room for,
    /// the first one is given up, and a request that was given up is told of. The outcome is sent
    /// where the thread is shown.
    pub fn enqueue_thread_feedback_event(&mut self, event: F) -> (r: Enqueued<Q>)
        ensures
            final(self).capacity == old(self).capacity,
            final(self).active == old(self).active,
            old(self).with_feedback(event).len() > old(self).capacity ==> final(self).buffer@
                == old(self).with_feedback(event).drop_first() && r.evicted_request == request_in(
                old(self).with_feedback(event)[0],
            ),
            old(self).with_feedback(event).len() <= old(self).capacity ==> final(self).buffer@
                == old(self).with_feedback(event) && r.evicted_request is None,
            r.should_send == old(self).active,
            old(self).wf() ==> final(self).wf(),
    {
        let ghost all = self.with_feedback(event);
        self.buffer.push(ThreadBufferedEvent::FeedbackSubmission { event });
        let mut evicted_request: Option<Q> = None;
        if self.buffer.len() > self.capacity {
            let removed = self.buffer.remove(0);
            proof {
                assert(removed == all[0]);
                assert(self.buffer@ =~= all.drop_first());
            }
            if let ThreadBufferedEvent::Request { request } = removed {
                evicted_request = Some(request);
            }
        }
        Enqueued { evicted_request, should_send: self.active }
    }
}

/// Where the outcome of a feedback goes.
#[derive(Debug, PartialEq, Eq)]
pub enum FeedbackRoute<C, A> {
    /// It is an event of this thread.
    Enqueue { thread_id: String, event: FeedbackThreadEvent<C, A> },
    /// It is shown at once.
    Show { event: FeedbackThreadEvent<C, A> },
}

/// Where the outcome of a feedback goes: to the thread that it came from, where there is one.
pub fn handle_feedback_submitted<C, A>(
    origin_thread_id: Option<String>,
    category: C,
    include_logs: bool,
    feedback_audience: A,
    result: Result<String, String>,
) -> (r: FeedbackRoute<C, A>)
    ensures
        ({
            let event = FeedbackThreadEvent { category, include_logs, feedback_audience, result };
            match origin_thread_id {
                Some(thread) => r == (FeedbackRoute::Enqueue { thread_id: thread, event }),
                None => r == (FeedbackRoute::Show { event }),
            }
        }),
{
    let event = FeedbackThreadEvent { category, include_logs, feedback_audience, result };
    match origin_thread_id {
        Some(thread_id) => FeedbackRoute::Enqueue { thread_id, event },
        None => FeedbackRoute::Show { event },
    }
}

/// What is shown of the outcome of a feedback.
#[derive(Clone, Debug, PartialEq, Eq)]
pub enum FeedbackCell<C, A> {
    /// That it was received, in this thread.
    Success { category: C, include_logs: bool, thread_id: String, feedback_audience: A },
    /// This error.
    Error { message: String },
}

/// What is shown of the outcome of a feedback.
pub fn handle_feedback_thread_event<C, A>(
    event: FeedbackThreadEvent<C, A>,
) -> (r: FeedbackCell<C, A>)
    ensures
        match event.result {
            Ok(thread) => r == (FeedbackCell::Success {
                category: event.category,
                include_logs: event.include_logs,
                thread_id: thread,
                feedback_audience: event.feedback_audience,
            }),
            Err(err) => r matches FeedbackCell::Error { message } && message@
                == "Failed to upload feedback: "@ + err@,
        },
{
    match event.result {
        Ok(thread_id) => FeedbackCell::Success {
            category: event.category,
            include_logs: event.include_logs,
            thread_id,
            feedback_audience: event.feedback_audience,
        },
        Err(err) => {
            let mut message = "Failed to upload feedback: ".to_owned();
            message.append(err.as_str());
            FeedbackCell::Error { message }
        },
    }
}

/// The outcome of a feedback comes last, after all that was in the buffer. Only a request that is
/// given up is told of.
pub proof fn law_feedback_comes_last<Q, F, N>(
    store: ThreadEventStore<Q, F, N>,
    event: F,
    request: Q,
    i: int,
)
    ensures
        store.with_feedback(event).len() == store.buffer@.len() + 1,
        0 <= i < store.buffer@.len() ==> store.with_feedback(event)[i] == store.buffer@[i],
        store.with_feedback(event).last() == (ThreadBufferedEvent::<Q, F, N>::FeedbackSubmission {
            event,
        }),
        request_in(ThreadBufferedEvent::<Q, F, N>::Request { request }) == Some(request),
        request_in(store.with_feedback(event).last()) is None,
        forall|e: ThreadBufferedEvent<Q, F, N>|
            !(e is Request) ==> #[trigger] request_in(e) is None,
{
}

} // verus!
