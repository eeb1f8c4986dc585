//! Fetching and installing features, the features that they depend on first.

use vstd::prelude::*;
use vstd::string::*;

use crate::features::plausible_id;
use crate::json::{find_member, members, Json, JsonView};
use crate::maps::{distinct_keys, has_key, key_index, lemma_has_key, lemma_key_index};
use crate::notes::{no_notes, NoteView, Notes};
use crate::text::{has_char, opt_text, same_text};
use crate::texts::Texts;

verus! {

/// A feature that is worked on: it was fetched, and the features that it depends on are dealt with
/// up to `next`.
pub struct Frame {
    pub id: String,
    pub opts: Json,
    pub deps: Vec<(String, Json)>,
    pub next: usize,
}

#[verifier::ext_equal]
pub struct FrameView {
    pub id: Seq<char>,
    pub opts: JsonView,
    pub deps: Seq<(Seq<char>, JsonView)>,
    pub next: int,
}

impl View for Frame {
    type V = FrameView;

    open spec fn view(&self) -> FrameView {
        FrameView {
            id: self.id@,
            opts: self.opts@,
            deps: members(self.deps@),
            next: self.next as int,
        }
    }
}

/// Works through features depth first. It says what to do next and is told how that went.
pub struct FeatureInstaller {
    pub roots: Vec<(String, Json)>,
    pub next_root: usize,
    pub stack: Vec<Frame>,
    /// The feature that is being fetched.
    pub pending: Option<String>,
    /// The features that are done with their options, in the order in which they were finished.
    pub done: Vec<(String, Json)>,
    /// The features that were left out.
    pub skipped: Texts,
}

#[verifier::ext_equal]
pub struct InstallerView {
    pub roots: Seq<(Seq<char>, JsonView)>,
    pub next_root: int,
    pub stack: Seq<FrameView>,
    pub pending: Option<Seq<char>>,
    pub done: Seq<(Seq<char>, JsonView)>,
    pub skipped: Seq<Seq<char>>,
}

pub open spec fn stack_view(v: Seq<Frame>) -> Seq<FrameView> {
    Seq::new(v.len(), |i: int| v[i]@)
}

impl View for FeatureInstaller {
    type V = InstallerView;

    open spec fn view(&self) -> InstallerView {
        InstallerView {
            roots: members(self.roots@),
            next_root: self.next_root as int,
            stack: stack_view(self.stack@),
            pending: opt_text(self.pending),
            done: members(self.done@),
            skipped: self.skipped@,
        }
    }
}

/// What is to be done next.
#[derive(Debug, PartialEq)]
pub enum Action {
    /// Fetch the feature and report with `fetched` or `skip`.
    Fetch(String, Json),
    /// Everything that the feature depends on is dealt with: install it and report with `finish`.
    Finish(String, Json),
    /// Nothing is left.
    Done,
}

#[verifier::ext_equal]
pub enum ActionView {
    Fetch(Seq<char>, JsonView),
    Finish(Seq<char>, JsonView),
    Done,
}

impl View for Action {
    type V = ActionView;

    open spec fn view(&self) -> ActionView {
        match self {
            Action::Fetch(id, opts) => ActionView::Fetch(id@, opts@),
            Action::Finish(id, opts) => ActionView::Finish(id@, opts@),
            Action::Done => ActionView::Done,
        }
    }
}

pub open spec fn on_stack(stack: Seq<FrameView>, id: Seq<char>) -> bool {
    exists|i: int| 0 <= i < stack.len() && (#[trigger] stack[i]).id == id
}

impl InstallerView {
    /// Whether a feature that `frame` depends on is dealt with: it is done, it was left out, or it is
    /// worked on itself.
    pub open spec fn settled(self, frame: FrameView, dep: Seq<char>) -> bool {
        ||| dep == frame.id
        ||| has_key(self.done, dep)
        ||| on_stack(self.stack, dep)
        ||| self.skipped.contains(dep)
        ||| self.pending == Some(dep)
    }

    /// Whether a requested feature is dealt with.
    pub open spec fn accounted(self, id: Seq<char>) -> bool {
        ||| has_key(self.done, id)
        ||| on_stack(self.stack, id)
        ||| self.skipped.contains(id)
        ||| self.pending == Some(id)
    }

    pub open spec fn wf(self) -> bool {
        &&& 0 <= self.next_root <= self.roots.len()
        &&& forall|k: int|
            0 <= k < self.next_root ==> self.accounted((#[trigger] self.roots[k]).0)
        &&& forall|i: int, j: int|
            0 <= i < j < self.stack.len() ==> (#[trigger] self.stack[i]).id != (
            #[trigger] self.stack[j]).id
        &&& forall|i: int| 0 <= i < self.stack.len() ==> !has_key(
            self.done,
            (#[trigger] self.stack[i]).id,
        )
        &&& distinct_keys(self.done)
        &&& forall|i: int|
            0 <= i < self.stack.len() ==> 0 <= (#[trigger] self.stack[i]).next
                <= self.stack[i].deps.len()
        &&& forall|i: int, k: int|
            0 <= i < self.stack.len() && 0 <= k < self.stack[i].next ==> self.settled(
                self.stack[i],
                #[trigger] self.stack[i].deps[k].0,
            )
        &&& (self.pending matches Some(p) ==> !has_key(self.done, p) && !on_stack(self.stack, p))
    }

    /// How many features are still to be looked at.
    pub open spec fn remaining(self) -> nat {
        (self.roots.len() - self.next_root) as nat + left(self.stack)
    }
}

pub open spec fn left(stack: Seq<FrameView>) -> nat
    decreases stack.len(),
{
    if stack.len() == 0 {
        0
    } else {
        left(stack.drop_last()) + (if stack.last().next <= stack.last().deps.len() {
            (stack.last().deps.len() - stack.last().next) as nat
        } else {
            0
        })
    }
}

#[verifier::ext_equal]
pub struct Turn {
    pub state: InstallerView,
    pub action: Option<ActionView>,
    pub notes: Seq<NoteView>,
}

/// What happens when a feature is asked for.
pub open spec fn asked(st: InstallerView, id: Seq<char>, opts: JsonView) -> Turn {
    if has_key(st.done, id) {
        Turn { state: st, action: None, notes: no_notes() }
    } else if on_stack(st.stack, id) {
        Turn {
            state: st,
            action: None,
            notes: seq![NoteView::Warning(
                "Warning: circular dependsOn detected for feature '"@ + id
                    + "'; skipping dependency"@,
            )],
        }
    } else if !plausible_id(id) {
        Turn {
            state: InstallerView { skipped: st.skipped.push(id), ..st },
            action: None,
            notes: seq![NoteView::Warning(
                "Warning: feature ID '"@ + id + "' looks invalid, skipping"@,
            )],
        }
    } else {
        Turn {
            state: InstallerView { pending: Some(id), ..st },
            action: Some(ActionView::Fetch(id, opts)),
            notes: no_notes(),
        }
    }
}

pub open spec fn self_dependency(id: Seq<char>) -> Seq<char> {
    "Warning: feature '"@ + id + "' dependsOn itself; skipping"@
}

/// One turn: the next feature that the topmost one depends on is asked for, or the topmost one is
/// to be finished; with an empty stack the next requested feature is asked for.
pub open spec fn turn(st: InstallerView) -> Turn {
    if st.stack.len() == 0 {
        if st.next_root >= st.roots.len() {
            Turn { state: st, action: Some(ActionView::Done), notes: no_notes() }
        } else {
            asked(
                InstallerView { next_root: st.next_root + 1, ..st },
                st.roots[st.next_root].0,
                st.roots[st.next_root].1,
            )
        }
    } else {
        let top = st.stack.last();
        if top.next >= top.deps.len() {
            Turn { state: st, action: Some(ActionView::Finish(top.id, top.opts)), notes: no_notes() }
        } else {
            let moved = InstallerView {
                stack: st.stack.drop_last().push(FrameView { next: top.next + 1, ..top }),
                ..st
            };
            let dep = top.deps[top.next];
            if dep.0 == top.id {
                Turn {
                    state: moved,
                    action: None,
                    notes: seq![NoteView::Warning(self_dependency(top.id))],
                }
            } else {
                asked(moved, dep.0, dep.1)
            }
        }
    }
}

pub proof fn lemma_turn_progress(st: InstallerView)
    requires
        st.wf(),
        turn(st).action is None,
    ensures
        turn(st).state.remaining() < st.remaining(),
{
    if st.stack.len() > 0 {
        let top = st.stack.last();
        let stack = st.stack.drop_last().push(FrameView { next: top.next + 1, ..top });
        assert(stack.drop_last() =~= st.stack.drop_last());
        assert(top == st.stack[st.stack.len() - 1]);
    }
}

/// A turn keeps the state well formed.
pub proof fn lemma_turn_wf(st: InstallerView)
    requires
        st.wf(),
        st.pending is None,
    ensures
        turn(st).state.wf(),
        turn(st).action is None ==> turn(st).state.pending is None,
{
    let after = turn(st).state;
    if st.stack.len() == 0 && st.next_root < st.roots.len() {
        assert forall|k: int| 0 <= k < after.next_root implies after.accounted(
            (#[trigger] after.roots[k]).0,
        ) by {
            let id = st.roots[k].0;
            if k < st.next_root {
                assert(st.accounted(st.roots[k].0));
                if st.skipped.contains(id) {
                    let x = choose|x: int| 0 <= x < st.skipped.len() && st.skipped[x] == id;
                    assert(after.skipped[x] == id);
                }
            } else if !has_key(st.done, id) && !plausible_id(id) {
                assert(after.skipped[st.skipped.len() as int] == id);
            }
        }
    }
    if st.stack.len() > 0 {
        let top = st.stack.last();
        assert(top == st.stack[st.stack.len() - 1]);
        if top.next < top.deps.len() {
            let n = st.stack.len() - 1;
            let moved = after.stack;
            assert(moved.len() == st.stack.len());
            assert(forall|i: int| 0 <= i < n ==> #[trigger] moved[i] == st.stack[i]);
            assert(moved[n].id == top.id && moved[n].deps == top.deps);
            assert forall|id: Seq<char>| on_stack(moved, id) == #[trigger] on_stack(st.stack, id) by {
                if on_stack(st.stack, id) {
                    let i = choose|i: int| 0 <= i < st.stack.len() && (#[trigger] st.stack[i]).id == id;
                    assert(moved[i].id == id);
                }
                if on_stack(moved, id) {
                    let i = choose|i: int| 0 <= i < moved.len() && (#[trigger] moved[i]).id == id;
                    assert(st.stack[i].id == id);
                }
            }
            assert forall|k: int| 0 <= k < after.next_root implies after.accounted(
                (#[trigger] after.roots[k]).0,
            ) by {
                let id = st.roots[k].0;
                assert(st.accounted(st.roots[k].0));
                if st.skipped.contains(id) {
                    let x = choose|x: int| 0 <= x < st.skipped.len() && st.skipped[x] == id;
                    assert(after.skipped[x] == id);
                }
            }
            assert forall|i: int, k: int|
                0 <= i < moved.len() && 0 <= k < moved[i].next implies after.settled(
                moved[i],
                #[trigger] moved[i].deps[k].0,
            ) by {
                if i < n {
                    lemma_still_settled(st, after, st.stack[i], st.stack[i].deps[k].0);
                } else if k < top.next {
                    assert(st.settled(st.stack[n], st.stack[n].deps[k].0));
                    lemma_still_settled(st, after, top, top.deps[k].0);
                } else {
                    let dep = top.deps[top.next].0;
                    if dep != top.id && !has_key(st.done, dep) && !on_stack(st.stack, dep)
                        && !plausible_id(dep) {
                        assert(after.skipped[st.skipped.len() as int] == dep);
                    }
                }
            }
        }
    }
}

proof fn lemma_still_settled(
    st: InstallerView,
    after: InstallerView,
    frame: FrameView,
    dep: Seq<char>,
)
    requires
        st.settled(frame, dep),
        st.pending is None,
        after.done == st.done,
        after.skipped == st.skipped || exists|x: Seq<char>| after.skipped == #[trigger] st.skipped.push(x),
        on_stack(st.stack, dep) ==> on_stack(after.stack, dep),
    ensures
        after.settled(frame, dep),
{
    if st.skipped.contains(dep) {
        let k = choose|k: int| 0 <= k < st.skipped.len() && st.skipped[k] == dep;
        assert(after.skipped[k] == dep);
    }
}

/// The turns up to the next action.
pub open spec fn advanced(st: InstallerView) -> Turn
    recommends
        st.wf(),
    decreases st.remaining(),
    when st.wf() && st.pending is None
{
    let t = turn(st);
    if t.action is Some {
        t
    } else {
        proof {
            lemma_turn_progress(st);
            lemma_turn_wf(st);
        }
        let rest = advanced(t.state);
        Turn { notes: t.notes + rest.notes, ..rest }
    }
}

/// Actions keep the state well formed.
pub proof fn lemma_advanced_wf(st: InstallerView)
    requires
        st.wf(),
        st.pending is None,
    ensures
        advanced(st).action is Some,
        advanced(st).state.wf(),
    decreases st.remaining(),
{
    lemma_turn_wf(st);
    if turn(st).action is None {
        lemma_turn_progress(st);
        lemma_advanced_wf(turn(st).state);
    }
}

impl FeatureInstaller {
    pub open spec fn wf(&self) -> bool {
        self@.wf()
    }

    /// An installer for the given features, in that order.
    pub fn new(roots: Vec<(String, Json)>) -> (res: FeatureInstaller)
        ensures
            res.wf(),
            res@ == (InstallerView {
                roots: members(roots@),
                next_root: 0,
                stack: Seq::empty(),
                pending: None,
                done: Seq::empty(),
                skipped: Seq::empty(),
            }),
    {
        let res = FeatureInstaller {
            roots,
            next_root: 0,
            stack: Vec::new(),
            pending: None,
            done: Vec::new(),
            skipped: Texts::new(),
        };
        assert(res@.stack =~= Seq::empty());
        assert(res@.done =~= Seq::empty());
        res
    }

    fn is_done(&self, id: &str) -> (res: bool)
        ensures
            res == has_key(self@.done, id@),
    {
        let at: usize = find_member(&self.done, id);
        at < self.done.len()
    }

    fn is_on_stack(&self, id: &str) -> (res: bool)
        ensures
            res == on_stack(self@.stack, id@),
    {
        let mut i: usize = 0;
        while i < self.stack.len()
            invariant
                i <= self.stack@.len(),
                forall|k: int| 0 <= k < i ==> (#[trigger] self@.stack[k]).id != id@,
            decreases self.stack@.len() - i,
        {
            if same_text(self.stack[i].id.as_str(), id) {
                assert(self@.stack[i as int].id == id@);
                return true;
            }
            assert(self@.stack[i as int].id != id@);
            i = i + 1;
        }
        false
    }

    fn ask(&mut self, id: String, opts: Json, notes: &mut Notes) -> (res: Option<Action>)
        ensures
            ({
                let t = asked(old(self)@, id@, opts@);
                &&& final(self)@ == t.state
                &&& opt_action(res) == t.action
                &&& final(notes)@ == old(notes)@ + t.notes
            }),
    {
        assert(notes@ + no_notes() =~= notes@);
        if self.is_done(id.as_str()) {
            return None;
        }
        if self.is_on_stack(id.as_str()) {
            notes.warn(
                "Warning: circular dependsOn detected for feature '".to_owned().concat(
                    id.as_str(),
                ).concat("'; skipping dependency"),
            );
            assert(notes@ =~= old(notes)@ + asked(old(self)@, id@, opts@).notes);
            return None;
        }
        if !has_char(id.as_str(), '/') && !has_char(id.as_str(), '.') {
            notes.warn(
                "Warning: feature ID '".to_owned().concat(id.as_str()).concat(
                    "' looks invalid, skipping",
                ),
            );
            self.skipped.arg(id.as_str());
            assert(notes@ =~= old(notes)@ + asked(old(self)@, id@, opts@).notes);
            return None;
        }
        self.pending = Some(id.clone());
        Some(Action::Fetch(id, opts))
    }

    fn take_turn(&mut self, notes: &mut Notes) -> (res: Option<Action>)
        requires
            old(self).wf(),
            old(self)@.pending is None,
        ensures
            ({
                let t = turn(old(self)@);
                &&& final(self)@ == t.state
                &&& opt_action(res) == t.action
                &&& final(notes)@ == old(notes)@ + t.notes
            }),
    {
        assert(notes@ + no_notes() =~= notes@);
        let depth: usize = self.stack.len();
        if depth == 0 {
            if self.next_root >= self.roots.len() {
                return Some(Action::Done);
            }
            let at: usize = self.next_root;
            assert(members(self.roots@)[at as int] == (
                self.roots@[at as int].0@,
                self.roots@[at as int].1@,
            ));
            let id = self.roots[at].0.clone();
            let opts = self.roots[at].1.copy();
            self.next_root = at + 1;
            return self.ask(id, opts, notes);
        }
        let ghost st = self@;
        let ghost top = st.stack.last();
        assert(top == self.stack@[depth - 1]@);
        assert(st.stack[depth - 1] == top);
        let next: usize = self.stack[depth - 1].next;
        if next >= self.stack[depth - 1].deps.len() {
            let id = self.stack[depth - 1].id.clone();
            let opts = self.stack[depth - 1].opts.copy();
            return Some(Action::Finish(id, opts));
        }
        assert(top.deps[next as int] == (
            self.stack@[depth - 1].deps@[next as int].0@,
            self.stack@[depth - 1].deps@[next as int].1@,
        ));
        let dep = self.stack[depth - 1].deps[next].0.clone();
        let opts = self.stack[depth - 1].deps[next].1.copy();
        let id = self.stack[depth - 1].id.clone();
        let ghost rest = self.stack@.drop_last();
        match self.stack.pop() {
            Some(mut frame) => {
                frame.next = next + 1;
                self.stack.push(frame);
            },
            None => {},
        }
        assert(self@.stack =~= st.stack.drop_last().push(FrameView { next: top.next + 1, ..top }));
        if same_text(dep.as_str(), id.as_str()) {
            notes.warn(
                "Warning: feature '".to_owned().concat(id.as_str()).concat(
                    "' dependsOn itself; skipping",
                ),
            );
            assert(notes@ =~= old(notes)@ + turn(st).notes);
            return None;
        }
        self.ask(dep, opts, notes)
    }

    /// Says what is to be done next.
    pub fn advance(&mut self, notes: &mut Notes) -> (res: Action)
        requires
            old(self).wf(),
            old(self)@.pending is None,
        ensures
            final(self).wf(),
            ({
                let t = advanced(old(self)@);
                &&& final(self)@ == t.state
                &&& Some(res@) == t.action
                &&& final(notes)@ == old(notes)@ + t.notes
            }),
    {
        let ghost start = self@;
        let ghost goal = advanced(start);
        proof {
            lemma_advanced_wf(start);
        }
        assert(notes@ + goal.notes == old(notes)@ + goal.notes);
        loop
            invariant
                self.wf(),
                self@.pending is None,
                goal == advanced(old(self)@),
                advanced(self@).state == goal.state,
                advanced(self@).action == goal.action,
                notes@ + advanced(self@).notes == old(notes)@ + goal.notes,
                goal.state.wf(),
            decreases self@.remaining(),
        {
            let ghost st = self@;
            let ghost told = notes@;
            proof {
                lemma_turn_wf(st);
                if turn(st).action is None {
                    lemma_turn_progress(st);
                }
            }
            let action = self.take_turn(notes);
            if let Some(a) = action {
                return a;
            }
            assert(notes@ + advanced(self@).notes =~= told + advanced(st).notes);
        }
    }

    /// Reports that the feature that was to be fetched is there, with its effective options and the
    /// features that it depends on.
    pub fn fetched(&mut self, opts: Json, deps: Vec<(String, Json)>)
        requires
            old(self).wf(),
            old(self)@.pending is Some,
        ensures
            final(self).wf(),
            final(self)@ == (InstallerView {
                stack: old(self)@.stack.push(
                    FrameView {
                        id: old(self)@.pending->0,
                        opts: opts@,
                        deps: members(deps@),
                        next: 0,
                    },
                ),
                pending: None,
                ..old(self)@
            }),
    {
        let ghost st = self@;
        let mut slot: Option<String> = None;
        std::mem::swap(&mut slot, &mut self.pending);
        if let Some(id) = slot {
            let frame = Frame { id, opts, deps, next: 0 };
            let ghost before = self.stack@;
            self.stack.push(frame);
            assert(stack_view(self.stack@) =~= stack_view(before).push(frame@));
            proof {
                lemma_fetched_wf(st, frame@);
            }
        }
    }

    /// Reports that the feature that was to be fetched is left out.
    pub fn skip(&mut self)
        requires
            old(self).wf(),
            old(self)@.pending is Some,
        ensures
            final(self).wf(),
            final(self)@ == (InstallerView {
                skipped: old(self)@.skipped.push(old(self)@.pending->0),
                pending: None,
                ..old(self)@
            }),
    {
        let ghost st = self@;
        let mut slot: Option<String> = None;
        std::mem::swap(&mut slot, &mut self.pending);
        if let Some(id) = slot {
            self.skipped.push(id);
            proof {
                lemma_skip_wf(st);
            }
        }
    }

    /// Reports that the feature that was to be finished is installed.
    pub fn finish(&mut self)
        requires
            old(self).wf(),
            old(self)@.pending is None,
            old(self)@.stack.len() > 0,
        ensures
            final(self).wf(),
            final(self)@ == (InstallerView {
                stack: old(self)@.stack.drop_last(),
                done: old(self)@.done.push(
                    (old(self)@.stack.last().id, old(self)@.stack.last().opts),
                ),
                ..old(self)@
            }),
    {
        let ghost st = self@;
        let ghost before = self.done@;
        match self.stack.pop() {
            Some(frame) => {
                let Frame { id, opts, deps: _, next: _ } = frame;
                self.done.push((id, opts));
                assert(members(self.done@) =~= members(before).push((id@, opts@)));
                assert(self@.stack =~= st.stack.drop_last());
                assert(st.stack.last() == frame@);
                proof {
                    lemma_finish_wf(st);
                }
            },
            None => {},
        }
    }
}

pub open spec fn opt_action(o: Option<Action>) -> Option<ActionView> {
    match o {
        Some(a) => Some(a@),
        None => None,
    }
}

proof fn lemma_fetched_wf(st: InstallerView, frame: FrameView)
    requires
        st.wf(),
        st.pending == Some(frame.id),
        frame.next == 0,
    ensures
        (InstallerView { stack: st.stack.push(frame), pending: None, ..st }).wf(),
{
    let after = InstallerView { stack: st.stack.push(frame), pending: None, ..st };
    let n = st.stack.len() as int;
    assert(after.stack[n] == frame);
    assert forall|k: int| 0 <= k < after.next_root implies after.accounted(
        (#[trigger] after.roots[k]).0,
    ) by {
        let id = st.roots[k].0;
        assert(st.accounted(st.roots[k].0));
        if on_stack(st.stack, id) {
            let x = choose|x: int| 0 <= x < st.stack.len() && (#[trigger] st.stack[x]).id == id;
            assert(after.stack[x].id == id);
        }
        if st.pending == Some(id) {
            assert(after.stack[n].id == id);
        }
    }
    assert forall|i: int, j: int| 0 <= i < j < after.stack.len() implies (
    #[trigger] after.stack[i]).id != (#[trigger] after.stack[j]).id by {
        if j == n {
            assert(after.stack[i] == st.stack[i]);
            assert(!on_stack(st.stack, frame.id));
        }
    }
    assert forall|i: int, k: int|
        0 <= i < after.stack.len() && 0 <= k < after.stack[i].next implies after.settled(
        after.stack[i],
        #[trigger] after.stack[i].deps[k].0,
    ) by {
        assert(i < n);
        assert(after.stack[i] == st.stack[i]);
        let dep = st.stack[i].deps[k].0;
        assert(st.settled(st.stack[i], dep));
        if on_stack(st.stack, dep) {
            let x = choose|x: int| 0 <= x < st.stack.len() && (#[trigger] st.stack[x]).id == dep;
            assert(after.stack[x].id == dep);
        }
        if st.pending == Some(dep) {
            assert(after.stack[n].id == dep);
        }
    }
}

proof fn lemma_skip_wf(st: InstallerView)
    requires
        st.wf(),
        st.pending is Some,
    ensures
        (InstallerView { skipped: st.skipped.push(st.pending->0), pending: None, ..st }).wf(),
{
    let after = InstallerView { skipped: st.skipped.push(st.pending->0), pending: None, ..st };
    assert forall|k: int| 0 <= k < after.next_root implies after.accounted(
        (#[trigger] after.roots[k]).0,
    ) by {
        let id = st.roots[k].0;
        assert(st.accounted(st.roots[k].0));
        if st.skipped.contains(id) {
            let x = choose|x: int| 0 <= x < st.skipped.len() && st.skipped[x] == id;
            assert(after.skipped[x] == id);
        }
        if st.pending == Some(id) {
            assert(after.skipped[st.skipped.len() as int] == id);
        }
    }
    assert forall|i: int, k: int|
        0 <= i < after.stack.len() && 0 <= k < after.stack[i].next implies after.settled(
        after.stack[i],
        #[trigger] after.stack[i].deps[k].0,
    ) by {
        let dep = st.stack[i].deps[k].0;
        assert(st.settled(st.stack[i], dep));
        if st.skipped.contains(dep) {
            let x = choose|x: int| 0 <= x < st.skipped.len() && st.skipped[x] == dep;
            assert(after.skipped[x] == dep);
        }
        if st.pending == Some(dep) {
            assert(after.skipped[st.skipped.len() as int] == dep);
        }
    }
}

proof fn lemma_done_push(done: Seq<(Seq<char>, JsonView)>, id: Seq<char>, opts: JsonView, k: Seq<char>)
    ensures
        has_key(done.push((id, opts)), k) <==> has_key(done, k) || k == id,
{
    let after = done.push((id, opts));
    lemma_key_index(done, k, 0);
    lemma_key_index(after, k, 0);
    let a = key_index(done, k, 0);
    let b = key_index(after, k, 0);
    if a < done.len() {
        assert(after[a].0 == k);
    }
    if b < done.len() {
        assert(done[b].0 == k);
    }
    if k == id {
        assert(after[done.len() as int].0 == k);
    }
}

proof fn lemma_finish_wf(st: InstallerView)
    requires
        st.wf(),
        st.pending is None,
        st.stack.len() > 0,
    ensures
        (InstallerView {
            stack: st.stack.drop_last(),
            done: st.done.push((st.stack.last().id, st.stack.last().opts)),
            ..st
        }).wf(),
{
    let top = st.stack.last();
    let n = st.stack.len() - 1;
    let after = InstallerView {
        stack: st.stack.drop_last(),
        done: st.done.push((top.id, top.opts)),
        ..st
    };
    assert(st.stack[n] == top);
    assert forall|k: int| 0 <= k < after.next_root implies after.accounted(
        (#[trigger] after.roots[k]).0,
    ) by {
        let id = st.roots[k].0;
        assert(st.accounted(st.roots[k].0));
        lemma_done_push(st.done, top.id, top.opts, id);
        if on_stack(st.stack, id) {
            let x = choose|x: int| 0 <= x < st.stack.len() && (#[trigger] st.stack[x]).id == id;
            if x < n {
                assert(after.stack[x].id == id);
            }
        }
    }
    assert forall|i: int| 0 <= i < after.stack.len() implies !has_key(
        after.done,
        (#[trigger] after.stack[i]).id,
    ) by {
        assert(after.stack[i] == st.stack[i]);
        lemma_done_push(st.done, top.id, top.opts, st.stack[i].id);
    }
    assert(distinct_keys(after.done)) by {
        assert forall|i: int, j: int| 0 <= i < j < after.done.len() implies after.done[i].0
            != after.done[j].0 by {
            if j == st.done.len() {
                assert(after.done[i] == st.done[i]);
                lemma_has_key(st.done, i);
            }
        }
    }
    assert forall|i: int, k: int|
        0 <= i < after.stack.len() && 0 <= k < after.stack[i].next implies after.settled(
        after.stack[i],
        #[trigger] after.stack[i].deps[k].0,
    ) by {
        let dep = st.stack[i].deps[k].0;
        assert(st.settled(st.stack[i], dep));
        lemma_done_push(st.done, top.id, top.opts, dep);
        if on_stack(st.stack, dep) {
            let x = choose|x: int| 0 <= x < st.stack.len() && (#[trigger] st.stack[x]).id == dep;
            if x < n {
                assert(after.stack[x].id == dep);
            }
        }
    }
}

// ---------------------------------------------------------------------------------------------
// Laws

/// When a feature is to be installed, every other feature that it depends on is installed already,
/// unless that one was left out or is being worked on itself because the features depend on each
/// other in a circle. The feature itself is not installed yet.
pub proof fn law_dependencies_are_installed_first(st: InstallerView, dep: int)
    requires
        st.wf(),
        st.pending is None,
        advanced(st).action is Some,
        advanced(st).action->0 is Finish,
        0 <= dep < advanced(st).state.stack.last().deps.len(),
    ensures
        ({
            let now = advanced(st).state;
            let top = now.stack.last();
            let id = top.deps[dep].0;
            &&& now.stack.len() > 0
            &&& advanced(st).action == Some(ActionView::Finish(top.id, top.opts))
            &&& !has_key(now.done, top.id)
            &&& (id == top.id || has_key(now.done, id) || now.skipped.contains(id) || on_stack(
                now.stack,
                id,
            ))
        }),
    decreases st.remaining(),
{
    lemma_turn_wf(st);
    if turn(st).action is None {
        lemma_turn_progress(st);
        law_dependencies_are_installed_first(turn(st).state, dep);
    } else {
        let top = st.stack.last();
        assert(st.stack[st.stack.len() - 1] == top);
        assert(st.settled(st.stack[st.stack.len() - 1], st.stack[st.stack.len() - 1].deps[dep].0));
    }
}

/// No feature is fetched that is installed already or that is being worked on, and a feature is
/// installed at most once.
pub proof fn law_features_are_fetched_once(st: InstallerView)
    requires
        st.wf(),
        st.pending is None,
    ensures
        ({
            let now = advanced(st).state;
            &&& distinct_keys(now.done)
            &&& (advanced(st).action matches Some(ActionView::Fetch(id, _)) ==> now.pending == Some(
                id,
            ) && !has_key(now.done, id) && !on_stack(now.stack, id) && plausible_id(id))
        }),
    decreases st.remaining(),
{
    lemma_turn_wf(st);
    if turn(st).action is None {
        lemma_turn_progress(st);
        law_features_are_fetched_once(turn(st).state);
    }
}

proof fn lemma_done_kept(st: InstallerView)
    requires
        st.wf(),
        st.pending is None,
    ensures
        advanced(st).state.done == st.done,
        advanced(st).state.roots == st.roots,
        advanced(st).action == Some(ActionView::Done) ==> advanced(st).state.stack.len() == 0
            && advanced(st).state.next_root == st.roots.len() && advanced(st).state.pending is None,
    decreases st.remaining(),
{
    lemma_turn_wf(st);
    if turn(st).action is None {
        lemma_turn_progress(st);
        lemma_done_kept(turn(st).state);
    }
}

/// The work ends only when every requested feature is installed or was left out, and looking for
/// the next action installs nothing.
pub proof fn law_every_request_is_answered(st: InstallerView, k: int)
    requires
        st.wf(),
        st.pending is None,
        0 <= k < st.roots.len(),
    ensures
        advanced(st).state.done == st.done,
        advanced(st).action == Some(ActionView::Done) ==> has_key(
            advanced(st).state.done,
            st.roots[k].0,
        ) || advanced(st).state.skipped.contains(st.roots[k].0),
{
    lemma_done_kept(st);
    lemma_advanced_wf(st);
    let now = advanced(st).state;
    if advanced(st).action == Some(ActionView::Done) {
        assert(now.accounted(now.roots[k].0));
    }
}

/// A feature that is asked for is fetched if and only if it is not installed, not worked on and named
/// like a feature, with the options that it is asked for with; asking installs nothing.
pub proof fn law_asked_features(st: InstallerView, id: Seq<char>, opts: JsonView)
    ensures
        ({
            let t = asked(st, id, opts);
            let fetch = !has_key(st.done, id) && !on_stack(st.stack, id) && (id.contains('/')
                || id.contains('.'));
            &&& fetch ==> t.action == Some(ActionView::Fetch(id, opts))
            &&& !fetch ==> t.action is None && t.state.pending == st.pending
            &&& t.state.done == st.done && t.state.stack == st.stack
            &&& t.state.skipped == st.skipped || t.state.skipped == st.skipped.push(id)
            &&& t.notes.len() > 0 <==> !fetch && !has_key(st.done, id)
        }),
{
}

} // verus!
