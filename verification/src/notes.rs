//! What a step prints, and command lines together with what is printed while they are put together.

use vstd::prelude::*;
use vstd::string::*;

use crate::texts::{texts, Texts};

verus! {

/// A line for the user: on standard output, or a warning on standard error.
#[derive(Debug, Clone, PartialEq, Eq)]
pub enum Note {
    Info(String),
    Warning(String),
}

#[verifier::ext_equal]
pub enum NoteView {
    Info(Seq<char>),
    Warning(Seq<char>),
}

impl View for Note {
    type V = NoteView;

    open spec fn view(&self) -> NoteView {
        match self {
            Note::Info(s) => NoteView::Info(s@),
            Note::Warning(s) => NoteView::Warning(s@),
        }
    }
}

/// The lines that a step prints, in order.
#[derive(Debug, Clone, PartialEq, Eq)]
pub struct Notes {
    pub items: Vec<Note>,
}

impl View for Notes {
    type V = Seq<NoteView>;

    open spec fn view(&self) -> Seq<NoteView> {
        Seq::new(self.items@.len(), |i: int| self.items@[i]@)
    }
}

pub open spec fn no_notes() -> Seq<NoteView> {
    Seq::empty()
}

impl Notes {
    pub fn new() -> (res: Notes)
        ensures
            res@ == no_notes(),
    {
        let res = Notes { items: Vec::new() };
        assert(res@ =~= no_notes());
        res
    }

    pub fn info(&mut self, line: String)
        ensures
            final(self)@ == old(self)@.push(NoteView::Info(line@)),
    {
        self.items.push(Note::Info(line));
        assert(self@ =~= old(self)@.push(NoteView::Info(line@)));
    }

    pub fn warn(&mut self, line: String)
        ensures
            final(self)@ == old(self)@.push(NoteView::Warning(line@)),
    {
        self.items.push(Note::Warning(line));
        assert(self@ =~= old(self)@.push(NoteView::Warning(line@)));
    }
}

impl Notes {
    /// Appends the lines of `more`.
    pub fn extend(&mut self, more: &Notes)
        ensures
            final(self)@ == old(self)@ + more@,
    {
        let mut i: usize = 0;
        while i < more.items.len()
            invariant
                i <= more@.len(),
                self@ == old(self)@ + more@.take(i as int),
            decreases more@.len() - i,
        {
            match &more.items[i] {
                Note::Info(s) => self.info(s.clone()),
                Note::Warning(s) => self.warn(s.clone()),
            }
            assert(more@.take(i + 1) =~= more@.take(i as int).push(more@[i as int]));
            i = i + 1;
        }
        assert(more@.take(i as int) =~= more@);
    }
}

/// The arguments of a command and the lines printed on the way.
#[derive(Debug, Clone, PartialEq, Eq)]
pub struct Plan {
    pub args: Texts,
    pub notes: Notes,
}

#[verifier::ext_equal]
pub struct PlanView {
    pub args: Seq<Seq<char>>,
    pub notes: Seq<NoteView>,
}

impl View for Plan {
    type V = PlanView;

    open spec fn view(&self) -> PlanView {
        PlanView { args: self.args@, notes: self.notes@ }
    }
}

impl PlanView {
    /// This plan, followed by `next`.
    pub open spec fn and(self, next: PlanView) -> PlanView {
        PlanView { args: self.args + next.args, notes: self.notes + next.notes }
    }
}

pub open spec fn nothing() -> PlanView {
    PlanView { args: Seq::empty(), notes: Seq::empty() }
}

/// One argument.
pub open spec fn word(a: Seq<char>) -> PlanView {
    PlanView { args: seq![a], notes: Seq::empty() }
}

/// A flag with its value.
pub open spec fn option(flag: Seq<char>, value: Seq<char>) -> PlanView {
    PlanView { args: seq![flag, value], notes: Seq::empty() }
}

/// A flag that is given when `on` holds.
pub open spec fn switch(on: bool, flag: Seq<char>) -> PlanView {
    if on {
        word(flag)
    } else {
        nothing()
    }
}

pub open spec fn opt_flag(flag: Seq<char>, value: Option<Seq<char>>) -> PlanView {
    match value {
        Some(v) => option(flag, v),
        None => nothing(),
    }
}

pub open spec fn told(notes: Seq<NoteView>) -> PlanView {
    PlanView { args: Seq::empty(), notes }
}

pub open spec fn warning(line: Seq<char>) -> PlanView {
    told(seq![NoteView::Warning(line)])
}

pub open spec fn info(line: Seq<char>) -> PlanView {
    told(seq![NoteView::Info(line)])
}

/// The plans of the items, one after the other.
pub open spec fn each<T>(items: Seq<T>, f: spec_fn(T) -> PlanView) -> PlanView
    decreases items.len(),
{
    if items.len() == 0 {
        nothing()
    } else {
        each(items.drop_last(), f).and(f(items.last()))
    }
}

pub proof fn lemma_each_next<T>(items: Seq<T>, f: spec_fn(T) -> PlanView, i: int)
    requires
        0 <= i < items.len(),
    ensures
        each(items.take(i + 1), f) == each(items.take(i), f).and(f(items[i])),
{
    assert(items.take(i + 1).drop_last() =~= items.take(i));
}

pub proof fn lemma_each_start<T>(items: Seq<T>, f: spec_fn(T) -> PlanView)
    ensures
        each(items.take(0), f) == nothing(),
        each(items.take(items.len() as int), f) == each(items, f),
{
    assert(items.take(items.len() as int) =~= items);
}

pub broadcast proof fn lemma_and_assoc(a: PlanView, b: PlanView, c: PlanView)
    ensures
        #[trigger] a.and(b).and(c) == a.and(b.and(c)),
{
    assert(a.and(b).and(c) =~= a.and(b.and(c)));
}

pub broadcast proof fn lemma_and_nothing(a: PlanView)
    ensures
        #[trigger] a.and(nothing()) == a,
{
    assert(a.and(nothing()) =~= a);
}

pub proof fn lemma_nothing_and(a: PlanView)
    ensures
        nothing().and(a) == a,
{
    assert(nothing().and(a) =~= a);
}

impl Plan {
    pub fn new() -> (res: Plan)
        ensures
            res@ == nothing(),
    {
        Plan { args: Texts::new(), notes: Notes::new() }
    }

    pub fn arg(&mut self, a: &str)
        ensures
            final(self)@ == old(self)@.and(word(a@)),
    {
        self.args.arg(a);
        assert(self@ =~= old(self)@.and(word(a@)));
    }

    pub fn push(&mut self, a: String)
        ensures
            final(self)@ == old(self)@.and(word(a@)),
    {
        self.args.push(a);
        assert(self@ =~= old(self)@.and(word(a@)));
    }

    /// Appends arguments as they are.
    pub fn args(&mut self, more: &Texts)
        ensures
            final(self)@ == old(self)@.and(PlanView { args: more@, notes: Seq::empty() }),
    {
        self.args.extend(more);
        assert(self@ =~= old(self)@.and(PlanView { args: more@, notes: Seq::empty() }));
    }

    /// Appends another plan.
    pub fn append(&mut self, more: &Plan)
        ensures
            final(self)@ == old(self)@.and(more@),
    {
        self.args.extend(&more.args);
        self.notes.extend(&more.notes);
        assert(self@ =~= old(self)@.and(more@));
    }

    pub fn flag(&mut self, flag: &str, value: String)
        ensures
            final(self)@ == old(self)@.and(option(flag@, value@)),
    {
        self.args.arg(flag);
        self.args.push(value);
        assert(self@ =~= old(self)@.and(option(flag@, value@)));
    }

    pub fn switch(&mut self, on: bool, flag: &str)
        ensures
            final(self)@ == old(self)@.and(switch(on, flag@)),
    {
        if on {
            self.arg(flag);
        }
        assert(self@ =~= old(self)@.and(switch(on, flag@)));
    }

    pub fn opt_flag(&mut self, flag: &str, value: Option<&str>)
        ensures
            final(self)@ == old(self)@.and(
                opt_flag(
                    flag@,
                    match value {
                        Some(v) => Some(v@),
                        None => None,
                    },
                ),
            ),
    {
        if let Some(v) = value {
            self.flag(flag, v.to_owned());
        }
        assert(self@ =~= old(self)@.and(
            opt_flag(
                flag@,
                match value {
                    Some(v) => Some(v@),
                    None => None,
                },
            ),
        ));
    }

    pub fn warn(&mut self, line: String)
        ensures
            final(self)@ == old(self)@.and(warning(line@)),
    {
        self.notes.warn(line);
        assert(self@ =~= old(self)@.and(warning(line@)));
    }

    pub fn info(&mut self, line: String)
        ensures
            final(self)@ == old(self)@.and(info(line@)),
    {
        self.notes.info(line);
        assert(self@ =~= old(self)@.and(info(line@)));
    }

    /// Gives `flag` with each of the values in turn.
    pub fn flag_each(&mut self, flag: &str, values: &Vec<String>)
        ensures
            final(self)@ == old(self)@.and(
                each(texts(values@), |v: Seq<char>| option(flag@, v)),
            ),
    {
        let ghost f = |v: Seq<char>| option(flag@, v);
        let ghost items = texts(values@);
        let mut i: usize = 0;
        proof {
            lemma_each_start(items, f);
            lemma_and_nothing(self@);
        }
        while i < values.len()
            invariant
                items == texts(values@),
                f == (|v: Seq<char>| option(flag@, v)),
                i <= values@.len(),
                self@ == old(self)@.and(each(items.take(i as int), f)),
            decreases values@.len() - i,
        {
            self.flag(flag, values[i].clone());
            proof {
                lemma_each_next(items, f, i as int);
                lemma_and_assoc(old(self)@, each(items.take(i as int), f), f(items[i as int]));
            }
            i = i + 1;
        }
        proof {
            lemma_each_start(items, f);
        }
    }
}

// ---------------------------------------------------------------------------------------------
// Reading command lines

/// Whether `flag` stands at position `i`, directly followed by `value`.
pub open spec fn pair_at(args: Seq<Seq<char>>, flag: Seq<char>, value: Seq<char>, i: int) -> bool {
    0 <= i && i + 1 < args.len() && args[i] == flag && args[i + 1] == value
}

/// Whether `flag` is given with `value`.
pub open spec fn has_pair(args: Seq<Seq<char>>, flag: Seq<char>, value: Seq<char>) -> bool {
    exists|i: int| pair_at(args, flag, value, i)
}

/// A flag of one of two plans is one of the plans together.
pub broadcast proof fn lemma_pair_and(a: PlanView, b: PlanView, flag: Seq<char>, value: Seq<char>)
    ensures
        has_pair(a.args, flag, value) || has_pair(b.args, flag, value) ==> #[trigger] has_pair(
            a.and(b).args,
            flag,
            value,
        ),
{
    let all = a.and(b).args;
    if has_pair(a.args, flag, value) {
        let i = choose|i: int| pair_at(a.args, flag, value, i);
        assert(pair_at(all, flag, value, i));
    } else if has_pair(b.args, flag, value) {
        let i = choose|i: int| pair_at(b.args, flag, value, i);
        assert(pair_at(all, flag, value, a.args.len() + i));
    }
}

/// A word of one of two plans is one of the plans together.
pub broadcast proof fn lemma_word_and(a: PlanView, b: PlanView, w: Seq<char>)
    ensures
        #[trigger] a.and(b).args.contains(w) <==> a.args.contains(w) || b.args.contains(w),
{
    let all = a.and(b).args;
    if a.args.contains(w) {
        let i = choose|i: int| 0 <= i < a.args.len() && a.args[i] == w;
        assert(all[i] == w);
    }
    if b.args.contains(w) {
        let i = choose|i: int| 0 <= i < b.args.len() && b.args[i] == w;
        assert(all[a.args.len() + i] == w);
    }
}

pub broadcast proof fn lemma_len_and(a: PlanView, b: PlanView)
    ensures
        #[trigger] a.and(b).args.len() == a.args.len() + b.args.len(),
{
}

pub broadcast proof fn lemma_option_pair(flag: Seq<char>, value: Seq<char>)
    ensures
        #[trigger] has_pair(option(flag, value).args, flag, value),
{
    assert(pair_at(option(flag, value).args, flag, value, 0));
}

pub broadcast group group_plans {
    lemma_pair_and,
    lemma_word_and,
    lemma_len_and,
    lemma_option_pair,
}

/// What one of the items is given with, all of them are given with.
pub proof fn lemma_each_pair<T>(
    items: Seq<T>,
    f: spec_fn(T) -> PlanView,
    i: int,
    flag: Seq<char>,
    value: Seq<char>,
)
    requires
        0 <= i < items.len(),
        has_pair(f(items[i]).args, flag, value),
    ensures
        has_pair(each(items, f).args, flag, value),
    decreases items.len(),
{
    let before = each(items.drop_last(), f);
    if i < items.len() - 1 {
        assert(items.drop_last()[i] == items[i]);
        lemma_each_pair(items.drop_last(), f, i, flag, value);
    }
    lemma_pair_and(before, f(items.last()), flag, value);
}

pub proof fn lemma_each_word<T>(items: Seq<T>, f: spec_fn(T) -> PlanView, i: int, w: Seq<char>)
    requires
        0 <= i < items.len(),
        f(items[i]).args.contains(w),
    ensures
        each(items, f).args.contains(w),
    decreases items.len(),
{
    let before = each(items.drop_last(), f);
    if i < items.len() - 1 {
        assert(items.drop_last()[i] == items[i]);
        lemma_each_word(items.drop_last(), f, i, w);
    }
    lemma_word_and(before, f(items.last()), w);
}

/// Items that give `n` words each give `n` times as many as there are.
pub proof fn lemma_each_len<T>(items: Seq<T>, f: spec_fn(T) -> PlanView, n: nat)
    requires
        forall|x: T| (#[trigger] f(x)).args.len() == n,
    ensures
        each(items, f).args.len() == n * items.len(),
    decreases items.len(),
{
    if items.len() > 0 {
        lemma_each_len(items.drop_last(), f, n);
        let k = items.len() as int;
        assert(n * (k - 1) + n == n * k) by (nonlinear_arith);
    } else {
        assert(n * 0 == 0);
    }
}

/// What is put behind a command line is put behind its last part.
pub proof fn lemma_tail(base: Seq<Seq<char>>, all: PlanView, last: PlanView, more: PlanView)
    requires
        all.args == base + last.args,
    ensures
        all.and(more).args == base + last.and(more).args,
{
    assert(all.and(more).args =~= base + last.and(more).args);
}

/// What is said with one of two plans is said with the plans together.
pub broadcast proof fn lemma_note_and(a: PlanView, b: PlanView, n: NoteView)
    ensures
        #[trigger] a.and(b).notes.contains(n) <==> a.notes.contains(n) || b.notes.contains(n),
{
    let all = a.and(b).notes;
    if a.notes.contains(n) {
        let i = choose|i: int| 0 <= i < a.notes.len() && a.notes[i] == n;
        assert(all[i] == n);
    }
    if b.notes.contains(n) {
        let i = choose|i: int| 0 <= i < b.notes.len() && b.notes[i] == n;
        assert(all[a.notes.len() + i] == n);
    }
}

} // verus!
