//! How far an enhancement with project context has come.
use vstd::prelude::*;
use crate::text::{blank, is_blank, lemma_texts_push, texts};

verus! {

/// One step of an enhancement.
#[derive(Clone, Copy, Debug, PartialEq, Eq, Structural)]
pub enum AceProgressStep {
    GeneratingEnhancedPrompt,
    ReviewingGuardrails,
}

impl AceProgressStep {
    /// The steps in the order in which they are taken.
    pub open spec fn sequence() -> Seq<AceProgressStep> {
        seq![AceProgressStep::GeneratingEnhancedPrompt, AceProgressStep::ReviewingGuardrails]
    }

    /// The steps in the order in which they are taken.
    pub fn in_order() -> (steps: [AceProgressStep; 2])
        ensures
            steps@ == Self::sequence(),
    {
        let steps = [
            AceProgressStep::GeneratingEnhancedPrompt,
            AceProgressStep::ReviewingGuardrails,
        ];
        proof {
            assert(steps@ =~= Self::sequence());
        }
        steps
    }

    /// The words for the step.
    pub open spec fn words(self) -> Seq<char> {
        match self {
            AceProgressStep::GeneratingEnhancedPrompt => "generating enhanced prompt"@,
            AceProgressStep::ReviewingGuardrails => "reviewing guardrails"@,
        }
    }

    /// The words for the step.
    pub fn label(self) -> (r: &'static str)
        ensures
            r@ == self.words(),
    {
        match self {
            AceProgressStep::GeneratingEnhancedPrompt => "generating enhanced prompt",
            AceProgressStep::ReviewingGuardrails => "reviewing guardrails",
        }
    }
}

/// The model of an [`AceProgress`].
pub struct Progress {
    pub completed: Seq<AceProgressStep>,
    pub current: Option<AceProgressStep>,
    pub notes: Seq<Seq<char>>,
}

impl Progress {
    /// No step twice among the completed ones, and the current step is not one of them.
    pub open spec fn wf(self) -> bool {
        &&& self.completed.no_duplicates()
        &&& self.current matches Some(step) ==> !self.completed.contains(step)
    }

    /// Nothing done yet.
    pub open spec fn none() -> Progress {
        Progress { completed: Seq::empty(), current: None, notes: Seq::empty() }
    }

    /// A step taken up; one that is completed stays so.
    pub open spec fn started(self, step: AceProgressStep) -> Progress {
        if self.completed.contains(step) {
            self
        } else {
            Progress { current: Some(step), ..self }
        }
    }

    /// A step brought to its end.
    pub open spec fn finished(self, step: AceProgressStep) -> Progress {
        Progress {
            completed: if self.completed.contains(step) {
                self.completed
            } else {
                self.completed.push(step)
            },
            current: if self.current == Some(step) {
                None
            } else {
                self.current
            },
            notes: self.notes,
        }
    }

    /// A note more; a blank one is left out.
    pub open spec fn noted(self, note: Seq<char>) -> Progress {
        if is_blank(note) {
            self
        } else {
            Progress { notes: self.notes.push(note), ..self }
        }
    }

    /// The notes of a list more.
    pub open spec fn noted_all(self, notes: Seq<Seq<char>>) -> Progress
        decreases notes.len(),
    {
        if notes.len() == 0 {
            self
        } else {
            self.noted_all(notes.drop_last()).noted(notes.last())
        }
    }

    /// In the middle of `step`, all steps before it done.
    pub open spec fn at(step: AceProgressStep) -> Progress {
        match step {
            AceProgressStep::GeneratingEnhancedPrompt => Progress {
                completed: Seq::empty(),
                current: Some(step),
                notes: Seq::empty(),
            },
            AceProgressStep::ReviewingGuardrails => Progress {
                completed: seq![AceProgressStep::GeneratingEnhancedPrompt],
                current: Some(step),
                notes: Seq::empty(),
            },
        }
    }
}

/// How far an enhancement has come, and what there is to say of it.
#[derive(Clone, Debug, PartialEq, Eq)]
pub struct AceProgress {
    completed: Vec<AceProgressStep>,
    current: Option<AceProgressStep>,
    notes: Vec<String>,
}

impl View for AceProgress {
    type V = Progress;

    closed spec fn view(&self) -> Progress {
        Progress {
            completed: self.completed@,
            current: self.current,
            notes: texts(self.notes@),
        }
    }
}

fn has_step(steps: &Vec<AceProgressStep>, step: AceProgressStep) -> (r: bool)
    ensures
        r == steps@.contains(step),
{
    let mut i: usize = 0;
    while i < steps.len()
        invariant
            i <= steps@.len(),
            forall|k: int| 0 <= k < i ==> steps@[k] != step,
        decreases steps@.len() - i,
    {
        if steps[i] == step {
            proof {
                assert(steps@[i as int] == step);
            }
            return true;
        }
        i += 1;
    }
    false
}

impl AceProgress {
    /// Nothing done yet.
    pub fn new() -> (r: Self)
        ensures
            r@ == Progress::none(),
    {
        let r = AceProgress { completed: Vec::new(), current: None, notes: Vec::new() };
        proof {
            assert(r@.completed =~= Seq::<AceProgressStep>::empty());
            assert(r@.notes =~= Seq::<Seq<char>>::empty());
        }
        r
    }

    /// In the middle of `step`, all steps before it done.
    pub fn running(step: AceProgressStep) -> (r: Self)
        ensures
            r@ == Progress::at(step),
    {
        let mut progress = AceProgress::new();
        let steps = AceProgressStep::in_order();
        let mut i: usize = 0;
        proof {
            assert(Progress::at(AceProgressStep::GeneratingEnhancedPrompt).completed
                =~= Seq::<AceProgressStep>::empty());
        }
        while i < 2
            invariant_except_break
                i <= 2,
                steps@ == AceProgressStep::sequence(),
                i == 0 ==> progress@ == Progress::none(),
                i == 1 ==> step != AceProgressStep::GeneratingEnhancedPrompt && progress@
                    == Progress::none().finished(AceProgressStep::GeneratingEnhancedPrompt),
                i == 2 ==> progress@ == Progress::at(step),
            ensures
                progress@ == Progress::at(step),
            decreases 2 - i,
        {
            if steps[i] == step {
                progress.start(step);
                proof {
                    assert(progress@.completed =~= Progress::at(step).completed);
                }
                break;
            }
            progress.complete(steps[i]);
            i += 1;
        }
        progress
    }

    /// In the middle of writing the enhanced prompt.
    pub fn building_prompt() -> (r: Self)
        ensures
            r@ == Progress::at(AceProgressStep::GeneratingEnhancedPrompt),
    {
        AceProgress::running(AceProgressStep::GeneratingEnhancedPrompt)
    }

    /// Adds a note; a blank one is left out.
    pub fn add_note(&mut self, note: String)
        ensures
            final(self)@ == old(self)@.noted(note@),
    {
        broadcast use lemma_texts_push;

        if !blank(note.as_str()) {
            self.notes.push(note);
        }
    }

    /// Takes up a step; one that is completed stays so.
    pub fn start(&mut self, step: AceProgressStep)
        ensures
            final(self)@ == old(self)@.started(step),
    {
        if !has_step(&self.completed, step) {
            self.current = Some(step);
        }
    }

    /// Brings a step to its end.
    pub fn complete(&mut self, step: AceProgressStep)
        ensures
            final(self)@ == old(self)@.finished(step),
    {
        if !has_step(&self.completed, step) {
            self.completed.push(step);
        }
        match self.current {
            Some(current) => {
                if current == step {
                    self.current = None;
                }
            },
            None => {},
        }
    }

    /// Whether a step is at its end.
    pub fn is_complete(&self, step: AceProgressStep) -> (r: bool)
        ensures
            r == self@.completed.contains(step),
    {
        has_step(&self.completed, step)
    }

    /// The step that is being taken.
    pub fn current(&self) -> (r: Option<AceProgressStep>)
        ensures
            r == self@.current,
    {
        self.current
    }

    /// The notes so far.
    pub fn notes(&self) -> (r: &Vec<String>)
        ensures
            texts(r@) == self@.notes,
    {
        &self.notes
    }

    /// Whether two reports say the same.
    pub fn same_as(&self, other: &AceProgress) -> (r: bool)
        ensures
            r == (self@ == other@),
    {
        if self.current != other.current {
            return false;
        }
        if self.completed.len() != other.completed.len() {
            return false;
        }
        let mut i: usize = 0;
        while i < self.completed.len()
            invariant
                self.completed@.len() == other.completed@.len(),
                i <= self.completed@.len(),
                forall|k: int| 0 <= k < i ==> self.completed@[k] == other.completed@[k],
            decreases self.completed@.len() - i,
        {
            if self.completed[i] != other.completed[i] {
                proof {
                    assert(self@.completed[i as int] != other@.completed[i as int]);
                }
                return false;
            }
            i += 1;
        }
        if self.notes.len() != other.notes.len() {
            proof {
                assert(self@.notes.len() != other@.notes.len());
            }
            return false;
        }
        i = 0;
        while i < self.notes.len()
            invariant
                self.notes@.len() == other.notes@.len(),
                i <= self.notes@.len(),
                forall|k: int| 0 <= k < i ==> texts(self.notes@)[k] == texts(other.notes@)[k],
            decreases self.notes@.len() - i,
        {
            if self.notes[i] != other.notes[i] {
                proof {
                    assert(self@.notes[i as int] != other@.notes[i as int]);
                }
                return false;
            }
            i += 1;
        }
        proof {
            assert(self@.completed =~= other@.completed);
            assert(self@.notes =~= other@.notes);
        }
        true
    }
}

/// No operation puts a step twice among the completed ones, nor makes a completed step the
/// current one again.
pub proof fn law_progress_wf(p: Progress, step: AceProgressStep, note: Seq<char>)
    requires
        p.wf(),
    ensures
        Progress::none().wf(),
        Progress::at(step).wf(),
        p.started(step).wf(),
        p.finished(step).wf(),
        p.noted(note).wf(),
{
    let q = p.finished(step);
    if !p.completed.contains(step) {
        assert(q.completed == p.completed.push(step));
        assert forall|i: int, j: int|
            0 <= i < q.completed.len() && 0 <= j < q.completed.len() && i
                != j implies q.completed[i] != q.completed[j] by {
            if i == p.completed.len() {
                assert(p.completed.contains(p.completed[j]));
            }
            if j == p.completed.len() {
                assert(p.completed.contains(p.completed[i]));
            }
        }
    }
    if q.current is Some {
        let c = q.current->Some_0;
        if q.completed.contains(c) {
            let k = choose|k: int| 0 <= k < q.completed.len() && q.completed[k] == c;
            if k < p.completed.len() {
                assert(p.completed.contains(c));
            }
        }
    }
}

/// A completed step stays completed whatever comes after.
pub proof fn law_completed_stays(
    p: Progress,
    done: AceProgressStep,
    step: AceProgressStep,
    note: Seq<char>,
)
    requires
        p.completed.contains(done),
    ensures
        p.started(step).completed.contains(done),
        p.finished(step).completed.contains(done),
        p.noted(note).completed.contains(done),
{
    let k = choose|k: int| 0 <= k < p.completed.len() && p.completed[k] == done;
    assert(p.finished(step).completed[k] == done);
}

/// What each operation does and what it leaves alone. A step that is brought to its end is done and
/// is not the current one, and nothing changes of the others. A step that is taken up is the current
/// one unless it is done already. A note that is not blank comes last among the notes.
pub proof fn law_progress_steps(p: Progress, step: AceProgressStep, other: AceProgressStep, note: Seq<char>)
    ensures
        p.finished(step).completed.contains(step),
        p.finished(step).current != Some(step),
        other != step ==> (p.finished(step).completed.contains(other) <==> p.completed.contains(
            other,
        )),
        p.current != Some(step) ==> p.finished(step).current == p.current,
        p.finished(step).notes == p.notes,
        !p.completed.contains(step) ==> p.started(step).current == Some(step),
        p.completed.contains(step) ==> p.started(step) == p,
        p.started(step).completed == p.completed,
        p.started(step).notes == p.notes,
        is_blank(note) ==> p.noted(note) == p,
        !is_blank(note) ==> p.noted(note).notes == p.notes.push(note),
        p.noted(note).completed == p.completed,
        p.noted(note).current == p.current,
        Progress::none().completed.len() == 0,
        Progress::none().current is None,
        Progress::none().notes.len() == 0,
        Progress::at(step).current == Some(step),
        Progress::at(step).notes.len() == 0,
        Progress::at(AceProgressStep::GeneratingEnhancedPrompt).completed.len() == 0,
        Progress::at(AceProgressStep::ReviewingGuardrails).completed == seq![
            AceProgressStep::GeneratingEnhancedPrompt,
        ],
{
    let q = p.finished(step);
    if !p.completed.contains(step) {
        assert(q.completed[p.completed.len() as int] == step);
        if p.completed.contains(other) {
            let k = choose|k: int| 0 <= k < p.completed.len() && p.completed[k] == other;
            assert(q.completed[k] == other);
        }
        if q.completed.contains(other) {
            let k = choose|k: int| 0 <= k < q.completed.len() && q.completed[k] == other;
            if k < p.completed.len() {
                assert(p.completed[k] == other);
            }
        }
    }
}

} // verus!
