//! Lists of strings, modelled as sequences of character sequences.

use vstd::prelude::*;

verus! {

pub open spec fn texts(v: Seq<String>) -> Seq<Seq<char>> {
    Seq::new(v.len(), |i: int| v[i]@)
}

/// The list with `entry` added at its end unless it is there already.
pub open spec fn added(v: Seq<Seq<char>>, entry: Seq<char>) -> Seq<Seq<char>> {
    if v.contains(entry) {
        v
    } else {
        v.push(entry)
    }
}

/// The list after the entries of `more` were added in turn.
pub open spec fn added_all(v: Seq<Seq<char>>, more: Seq<Seq<char>>) -> Seq<Seq<char>>
    decreases more.len(),
{
    if more.len() == 0 {
        v
    } else {
        added(added_all(v, more.drop_last()), more.last())
    }
}

/// The list without the repetitions of its entries.
pub open spec fn unrepeated(v: Seq<Seq<char>>) -> Seq<Seq<char>>
    decreases v.len(),
{
    if v.len() == 0 {
        Seq::empty()
    } else {
        added(unrepeated(v.drop_last()), v.last())
    }
}

/// No text of the list occurs twice.
pub open spec fn all_distinct(v: Seq<Seq<char>>) -> bool {
    forall|i: int, j: int| 0 <= i < j < v.len() ==> #[trigger] v[i] != #[trigger] v[j]
}

pub proof fn lemma_added_distinct(v: Seq<Seq<char>>, entry: Seq<char>)
    requires
        all_distinct(v),
    ensures
        all_distinct(added(v, entry)),
        added(v, entry).contains(entry),
{
    let w = added(v, entry);
    if !v.contains(entry) {
        assert(w[v.len() as int] == entry);
        assert forall|i: int, j: int| 0 <= i < j < w.len() implies #[trigger] w[i] != #[trigger] w[j] by {
            if j == v.len() {
                assert(w[i] == v[i]);
                assert(v.contains(v[i]));
            }
        }
    }
}

/// Adding entries keeps a list without repetitions free of them, and keeps what was there in place.
pub proof fn lemma_added_all(v: Seq<Seq<char>>, more: Seq<Seq<char>>)
    ensures
        all_distinct(v) ==> all_distinct(added_all(v, more)),
        added_all(v, more).len() >= v.len(),
        added_all(v, more).take(v.len() as int) == v,
        forall|i: int| 0 <= i < more.len() ==> added_all(v, more).contains(#[trigger] more[i]),
    decreases more.len(),
{
    if more.len() > 0 {
        let before = added_all(v, more.drop_last());
        let after = added_all(v, more);
        lemma_added_all(v, more.drop_last());
        if all_distinct(v) {
            lemma_added_distinct(before, more.last());
        }
        assert(after.take(v.len() as int) =~= before.take(v.len() as int));
        assert forall|i: int| 0 <= i < more.len() implies after.contains(#[trigger] more[i]) by {
            if i < more.len() - 1 {
                assert(more.drop_last()[i] == more[i]);
                let k = choose|k: int| 0 <= k < before.len() && before[k] == more[i];
                assert(after[k] == more[i]);
            } else if before.contains(more[i]) {
            } else {
                assert(after[before.len() as int] == more[i]);
            }
        }
    } else {
        assert(v.take(v.len() as int) =~= v);
    }
}

/// A growing list of strings: the arguments of a command, the lines of a report.
#[derive(Debug, Clone, PartialEq, Eq)]
pub struct Texts {
    pub items: Vec<String>,
}

impl View for Texts {
    type V = Seq<Seq<char>>;

    open spec fn view(&self) -> Seq<Seq<char>> {
        texts(self.items@)
    }
}

impl Texts {
    pub fn new() -> (res: Texts)
        ensures
            res@ == Seq::<Seq<char>>::empty(),
    {
        let res = Texts { items: Vec::new() };
        assert(res@ =~= Seq::<Seq<char>>::empty());
        res
    }

    pub fn push(&mut self, item: String)
        ensures
            final(self)@ == old(self)@.push(item@),
    {
        self.items.push(item);
        assert(self@ =~= old(self)@.push(item@));
    }

    pub fn arg(&mut self, item: &str)
        ensures
            final(self)@ == old(self)@.push(item@),
    {
        self.push(item.to_owned());
    }

    /// Removes the last string.
    pub fn pop(&mut self)
        requires
            old(self)@.len() > 0,
        ensures
            final(self)@ == old(self)@.drop_last(),
    {
        self.items.pop();
        assert(self@ =~= old(self)@.drop_last());
    }

    pub fn len(&self) -> (n: usize)
        ensures
            n == self@.len(),
    {
        self.items.len()
    }

    pub fn get(&self, i: usize) -> (s: &str)
        requires
            i < self@.len(),
        ensures
            s@ == self@[i as int],
    {
        self.items[i].as_str()
    }

    pub fn contains(&self, item: &str) -> (res: bool)
        ensures
            res == self@.contains(item@),
    {
        let wanted = item.to_owned();
        let mut i: usize = 0;
        while i < self.items.len()
            invariant
                i <= self@.len(),
                self@.len() == self.items@.len(),
                wanted@ == item@,
                forall|k: int| 0 <= k < i ==> self@[k] != wanted@,
            decreases self@.len() - i,
        {
            if self.items[i] == wanted {
                assert(self@[i as int] == wanted@);
                return true;
            }
            i = i + 1;
        }
        false
    }

    /// Appends a string unless it is there already.
    pub fn add_new(&mut self, item: String)
        ensures
            final(self)@ == added(old(self)@, item@),
    {
        if !self.contains(item.as_str()) {
            self.push(item);
        }
    }

    /// Appends the strings of `more` that are not there already.
    pub fn add_all_new(&mut self, more: &Vec<String>)
        ensures
            final(self)@ == added_all(old(self)@, texts(more@)),
    {
        let mut i: usize = 0;
        assert(texts(more@).take(0) =~= Seq::empty());
        while i < more.len()
            invariant
                i <= more@.len(),
                self@ == added_all(old(self)@, texts(more@).take(i as int)),
            decreases more@.len() - i,
        {
            assert(texts(more@).take(i + 1).drop_last() =~= texts(more@).take(i as int));
            self.add_new(more[i].clone());
            i = i + 1;
        }
        assert(texts(more@).take(i as int) =~= texts(more@));
    }

    /// Appends the strings of `more`.
    pub fn extend(&mut self, more: &Texts)
        ensures
            final(self)@ == old(self)@ + more@,
    {
        let mut i: usize = 0;
        while i < more.items.len()
            invariant
                i <= more@.len(),
                self@ == old(self)@ + more@.take(i as int),
            decreases more@.len() - i,
        {
            self.push(more.items[i].clone());
            assert(more@.take(i + 1) =~= more@.take(i as int).push(more@[i as int]));
            i = i + 1;
        }
        assert(more@.take(i as int) =~= more@);
    }
}

/// A list without repetitions holds the entries of the list, each once, and a further entry changes it
/// only where it is new, at the end.
pub proof fn law_unrepeated(v: Seq<Seq<char>>, s: Seq<char>)
    ensures
        all_distinct(unrepeated(v)),
        unrepeated(v).contains(s) <==> v.contains(s),
        v.contains(s) ==> unrepeated(v.push(s)) == unrepeated(v),
        !v.contains(s) ==> unrepeated(v.push(s)) == unrepeated(v).push(s),
    decreases v.len(),
{
    assert(v.push(s).drop_last() =~= v);
    if v.len() > 0 {
        let w = v.drop_last();
        law_unrepeated(w, s);
        lemma_added_distinct(unrepeated(w), v.last());
        let now = unrepeated(v);
        if w.contains(s) {
            let k = choose|k: int| 0 <= k < w.len() && w[k] == s;
            assert(v[k] == s);
            let j = choose|j: int| 0 <= j < unrepeated(w).len() && unrepeated(w)[j] == s;
            assert(now[j] == s);
        }
        if v.contains(s) && !w.contains(s) {
            let k = choose|k: int| 0 <= k < v.len() && v[k] == s;
            if k < w.len() {
                assert(w[k] == s);
            }
            assert(v.last() == s);
        }
        assert(v[v.len() - 1] == v.last());
        if now.contains(s) && !unrepeated(w).contains(s) {
            let j = choose|j: int| 0 <= j < now.len() && now[j] == s;
            if j < unrepeated(w).len() {
                assert(unrepeated(w)[j] == s);
            }
            assert(v.last() == s);
        }
    }
}

} // verus!
