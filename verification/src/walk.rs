//! Depth-first walks over named nodes: what a node asks for comes before the node itself.

use vstd::prelude::*;
use vstd::string::*;

use crate::maps::{has_key, key_index, lemma_key_index, lookup};
use crate::notes::{no_notes, Note, NoteView, Notes};
use crate::text::same_text;
use crate::texts::Texts;

verus! {

/// One step in the work on a node: a line for the user, or another node to visit first.
#[derive(Debug, PartialEq)]
pub enum Step {
    Say(Note),
    Visit(String),
}

#[verifier::ext_equal]
pub enum StepView {
    Say(NoteView),
    Visit(Seq<char>),
}

impl View for Step {
    type V = StepView;

    open spec fn view(&self) -> StepView {
        match self {
            Step::Say(n) => StepView::Say(n@),
            Step::Visit(s) => StepView::Visit(s@),
        }
    }
}

pub open spec fn steps_view(v: Seq<Step>) -> Seq<StepView> {
    Seq::new(v.len(), |i: int| v[i]@)
}

pub open spec fn table_view(v: Seq<(String, Vec<Step>)>) -> Seq<(Seq<char>, Seq<StepView>)> {
    Seq::new(v.len(), |i: int| (v[i].0@, steps_view(v[i].1@)))
}

/// The steps of the nodes; a node without an entry has none.
pub struct Table {
    pub entries: Vec<(String, Vec<Step>)>,
}

impl View for Table {
    type V = Seq<(Seq<char>, Seq<StepView>)>;

    open spec fn view(&self) -> Seq<(Seq<char>, Seq<StepView>)> {
        table_view(self.entries@)
    }
}

/// The nodes that are finished, in order, and the lines said on the way.
#[verifier::ext_equal]
pub struct Walk {
    pub order: Seq<Seq<char>>,
    pub notes: Seq<NoteView>,
}

pub open spec fn steps_of(table: Seq<(Seq<char>, Seq<StepView>)>, id: Seq<char>) -> Seq<StepView> {
    match lookup(table, id) {
        Some(s) => s,
        None => Seq::empty(),
    }
}

/// What is said when a node is met again while it is worked on.
pub open spec fn circular_notes(circular: Option<Seq<char>>, id: Seq<char>) -> Seq<NoteView> {
    match circular {
        Some(text) => seq![NoteView::Warning(text + id)],
        None => no_notes(),
    }
}

/// The walk after a visit to `id`, with `path` the nodes that are worked on. A finished node is left
/// alone, one that is worked on is not entered again; any other one is finished after its steps.
/// `fuel` bounds the depth.
pub open spec fn visited(
    table: Seq<(Seq<char>, Seq<StepView>)>,
    circular: Option<Seq<char>>,
    fuel: nat,
    path: Seq<Seq<char>>,
    id: Seq<char>,
    walk: Walk,
) -> Walk
    decreases fuel, 0nat,
{
    if walk.order.contains(id) {
        walk
    } else if path.contains(id) {
        Walk { notes: walk.notes + circular_notes(circular, id), ..walk }
    } else if fuel == 0 {
        walk
    } else {
        let steps = steps_of(table, id);
        let after = stepped(
            table,
            circular,
            (fuel - 1) as nat,
            path.push(id),
            steps,
            steps.len(),
            walk,
        );
        Walk { order: after.order.push(id), ..after }
    }
}

/// The walk after the first `n` steps.
pub open spec fn stepped(
    table: Seq<(Seq<char>, Seq<StepView>)>,
    circular: Option<Seq<char>>,
    fuel: nat,
    path: Seq<Seq<char>>,
    steps: Seq<StepView>,
    n: nat,
    walk: Walk,
) -> Walk
    decreases fuel, n + 1,
{
    if n == 0 || n > steps.len() {
        walk
    } else {
        let before = stepped(table, circular, fuel, path, steps, (n - 1) as nat, walk);
        match steps[n - 1] {
            StepView::Say(note) => Walk { notes: before.notes.push(note), ..before },
            StepView::Visit(id) => visited(table, circular, fuel, path, id, before),
        }
    }
}

/// The depth that is enough for any walk over the table.
pub open spec fn depth(table: Seq<(Seq<char>, Seq<StepView>)>) -> nat {
    table.len() + 1
}

pub open spec fn started() -> Walk {
    Walk { order: Seq::empty(), notes: Seq::empty() }
}

/// The walk after visits to the first `n` of the given nodes.
pub open spec fn walked(
    table: Seq<(Seq<char>, Seq<StepView>)>,
    circular: Option<Seq<char>>,
    ids: Seq<Seq<char>>,
    n: int,
) -> Walk
    decreases n,
{
    if n <= 0 || n > ids.len() {
        started()
    } else {
        visited(
            table,
            circular,
            depth(table),
            Seq::empty(),
            ids[n - 1],
            walked(table, circular, ids, n - 1),
        )
    }
}

pub open spec fn walk_of(
    table: Seq<(Seq<char>, Seq<StepView>)>,
    circular: Option<Seq<char>>,
    ids: Seq<Seq<char>>,
) -> Walk {
    walked(table, circular, ids, ids.len() as int)
}

// ---------------------------------------------------------------------------------------------
// The path

/// Whether the nodes of a path are different and have entries.
pub open spec fn path_ok(table: Seq<(Seq<char>, Seq<StepView>)>, path: Seq<Seq<char>>) -> bool {
    &&& path.no_duplicates()
    &&& forall|i: int| 0 <= i < path.len() ==> has_key(table, #[trigger] path[i])
}

pub open spec fn table_keys(table: Seq<(Seq<char>, Seq<StepView>)>) -> Seq<Seq<char>> {
    Seq::new(table.len(), |i: int| table[i].0)
}

/// A path has at most as many nodes as the table has entries.
proof fn lemma_path_bounded(table: Seq<(Seq<char>, Seq<StepView>)>, path: Seq<Seq<char>>)
    requires
        path_ok(table, path),
    ensures
        path.len() <= table.len(),
{
    let keys = table_keys(table);
    path.unique_seq_to_set();
    keys.lemma_cardinality_of_set();
    vstd::seq_lib::seq_to_set_is_finite(keys);
    assert forall|s: Seq<char>| path.to_set().contains(s) implies keys.to_set().contains(s) by {
        let i = choose|i: int| 0 <= i < path.len() && path[i] == s;
        assert(has_key(table, path[i]));
        lemma_key_index(table, s, 0);
        let at = key_index(table, s, 0);
        assert(keys[at] == s);
    }
    vstd::set_lib::lemma_len_subset(path.to_set(), keys.to_set());
}

proof fn lemma_path_push(
    table: Seq<(Seq<char>, Seq<StepView>)>,
    path: Seq<Seq<char>>,
    id: Seq<char>,
)
    requires
        path_ok(table, path),
        !path.contains(id),
        has_key(table, id),
    ensures
        path_ok(table, path.push(id)),
{
    let p = path.push(id);
    assert forall|i: int, j: int| 0 <= i < p.len() && 0 <= j < p.len() && i != j implies p[i] != p[j] by {
        if i == path.len() {
            assert(path.contains(path[j]));
        } else if j == path.len() {
            assert(path.contains(path[i]));
        }
    }
}

impl Table {
    fn index_of(&self, id: &str) -> (at: usize)
        ensures
            at == key_index(self@, id@, 0),
            at <= self@.len(),
    {
        let mut i: usize = 0;
        while i < self.entries.len()
            invariant
                i <= self@.len(),
                self@.len() == self.entries@.len(),
                key_index(self@, id@, 0) == key_index(self@, id@, i as int),
            decreases self@.len() - i,
        {
            if same_text(self.entries[i].0.as_str(), id) {
                assert(self@[i as int].0 == id@);
                return i;
            }
            assert(self@[i as int].0 != id@);
            i = i + 1;
        }
        i
    }

    fn visit(
        &self,
        circular: Option<&str>,
        path: &mut Texts,
        id: &str,
        order: &mut Texts,
        notes: &mut Notes,
    )
        requires
            path_ok(self@, old(path)@),
        ensures
            final(path)@ == old(path)@,
            (Walk { order: final(order)@, notes: final(notes)@ }) == visited(
                self@,
                opt_prefix(circular),
                (depth(self@) - old(path)@.len()) as nat,
                old(path)@,
                id@,
                Walk { order: old(order)@, notes: old(notes)@ },
            ),
        decreases self@.len() - old(path)@.len(), 0int,
    {
        proof {
            lemma_path_bounded(self@, path@);
        }
        if order.contains(id) {
            return;
        }
        if path.contains(id) {
            if let Some(text) = circular {
                notes.warn(text.to_owned().concat(id));
            }
            assert(notes@ =~= old(notes)@ + circular_notes(opt_prefix(circular), id@));
            return;
        }
        let ghost circ = opt_prefix(circular);
        let ghost start = Walk { order: order@, notes: notes@ };
        let at: usize = self.index_of(id);
        if at < self.entries.len() {
            let steps = &self.entries[at].1;
            let ghost all = steps_of(self@, id@);
            assert(all == steps_view(steps@));
            let ghost outer = path@;
            proof {
                lemma_path_push(self@, path@, id@);
                lemma_path_bounded(self@, path@.push(id@));
            }
            path.arg(id);
            let mut n: usize = 0;
            let ghost fuel = (depth(self@) - outer.len() - 1) as nat;
            while n < steps.len()
                invariant
                    n <= steps@.len(),
                    all == steps_view(steps@),
                    circ == opt_prefix(circular),
                    path@ == outer.push(id@),
                    path_ok(self@, path@),
                    path@.len() <= self@.len(),
                    outer == old(path)@,
                    fuel == depth(self@) - outer.len() - 1,
                    (Walk { order: order@, notes: notes@ }) == stepped(
                        self@,
                        circ,
                        fuel,
                        path@,
                        all,
                        n as nat,
                        start,
                    ),
                decreases steps@.len() - n,
            {
                match &steps[n] {
                    Step::Say(note) => {
                        assert(all[n as int] == StepView::Say(note@));
                        match note {
                            Note::Info(s) => notes.info(s.clone()),
                            Note::Warning(s) => notes.warn(s.clone()),
                        }
                    },
                    Step::Visit(next) => {
                        assert(all[n as int] == StepView::Visit(next@));
                        self.visit(circular, path, next.as_str(), order, notes);
                    },
                }
                n = n + 1;
            }
            path.pop();
            assert(path@ =~= outer);
        }
        order.arg(id);
    }

    /// Visits the given nodes in turn. Returns the nodes in the order in which they are finished.
    pub fn walk(&self, circular: Option<&str>, ids: &Texts, notes: &mut Notes) -> (res: Texts)
        ensures
            res@ == walk_of(self@, opt_prefix(circular), ids@).order,
            final(notes)@ == old(notes)@ + walk_of(self@, opt_prefix(circular), ids@).notes,
    {
        let mut order = Texts::new();
        let mut said = Notes::new();
        let mut path = Texts::new();
        let mut n: usize = 0;
        while n < ids.len()
            invariant
                n <= ids@.len(),
                path@ == Seq::<Seq<char>>::empty(),
                (Walk { order: order@, notes: said@ }) == walked(
                    self@,
                    opt_prefix(circular),
                    ids@,
                    n as int,
                ),
            decreases ids@.len() - n,
        {
            self.visit(circular, &mut path, ids.get(n), &mut order, &mut said);
            n = n + 1;
        }
        notes.extend(&said);
        order
    }
}

pub open spec fn opt_prefix(o: Option<&str>) -> Option<Seq<char>> {
    match o {
        Some(s) => Some(s@),
        None => None,
    }
}

// ---------------------------------------------------------------------------------------------
// Laws

/// Whether the walk stays on track: nothing is finished twice, and what was finished stays.
pub open spec fn continues(before: Walk, after: Walk) -> bool {
    &&& before.order.len() <= after.order.len()
    &&& after.order.take(before.order.len() as int) == before.order
}

proof fn lemma_continues(a: Walk, b: Walk, c: Walk)
    requires
        continues(a, b),
        continues(b, c),
    ensures
        continues(a, c),
{
    assert(c.order.take(a.order.len() as int) =~= c.order.take(b.order.len() as int).take(
        a.order.len() as int,
    ));
}

proof fn lemma_contains_later(a: Walk, b: Walk, id: Seq<char>)
    requires
        continues(a, b),
        a.order.contains(id),
    ensures
        b.order.contains(id),
{
    let i = choose|i: int| 0 <= i < a.order.len() && a.order[i] == id;
    assert(b.order.take(a.order.len() as int)[i] == b.order[i]);
}

/// What a visit does to the finished nodes: none is finished twice, none on the path is finished,
/// and the visited node is finished unless it is on the path or the fuel is used up.
proof fn lemma_visited(
    table: Seq<(Seq<char>, Seq<StepView>)>,
    circular: Option<Seq<char>>,
    fuel: nat,
    path: Seq<Seq<char>>,
    id: Seq<char>,
    walk: Walk,
)
    requires
        walk.order.no_duplicates(),
        forall|i: int| 0 <= i < path.len() ==> !walk.order.contains(#[trigger] path[i]),
    ensures
        ({
            let after = visited(table, circular, fuel, path, id, walk);
            &&& continues(walk, after)
            &&& after.order.no_duplicates()
            &&& forall|i: int| 0 <= i < path.len() ==> !after.order.contains(#[trigger] path[i])
            &&& (fuel > 0 && !path.contains(id) ==> after.order.contains(id))
        }),
    decreases fuel, 0nat,
{
    let after = visited(table, circular, fuel, path, id, walk);
    assert(walk.order.take(walk.order.len() as int) =~= walk.order);
    if !walk.order.contains(id) && !path.contains(id) && fuel > 0 {
        let steps = steps_of(table, id);
        let inner = path.push(id);
        assert forall|i: int| 0 <= i < inner.len() implies !walk.order.contains(
            #[trigger] inner[i],
        ) by {
            if i < path.len() {
                assert(inner[i] == path[i]);
            }
        }
        lemma_stepped(table, circular, (fuel - 1) as nat, inner, steps, steps.len(), walk);
        let mid = stepped(
            table,
            circular,
            (fuel - 1) as nat,
            inner,
            steps,
            steps.len(),
            walk,
        );
        assert(inner[path.len() as int] == id);
        assert(!mid.order.contains(id));
        assert(after.order == mid.order.push(id));
        assert(after.order.take(walk.order.len() as int) =~= mid.order.take(
            walk.order.len() as int,
        ));
        assert(after.order[mid.order.len() as int] == id);
        assert forall|i: int, j: int|
            0 <= i < after.order.len() && 0 <= j < after.order.len() && i != j implies after.order[i]
            != after.order[j] by {
            if i == mid.order.len() {
                assert(mid.order.contains(mid.order[j]));
            } else if j == mid.order.len() {
                assert(mid.order.contains(mid.order[i]));
            }
        }
        assert forall|i: int| 0 <= i < path.len() implies !after.order.contains(#[trigger] path[i]) by {
            assert(inner[i] == path[i]);
            assert(!mid.order.contains(inner[i]));
            assert(path[i] != id) by {
                assert(path.contains(path[i]));
            }
            if after.order.contains(path[i]) {
                let k = choose|k: int| 0 <= k < after.order.len() && after.order[k] == path[i];
                assert(k < mid.order.len());
                assert(mid.order[k] == path[i]);
            }
        }
    }
}

proof fn lemma_stepped(
    table: Seq<(Seq<char>, Seq<StepView>)>,
    circular: Option<Seq<char>>,
    fuel: nat,
    path: Seq<Seq<char>>,
    steps: Seq<StepView>,
    n: nat,
    walk: Walk,
)
    requires
        walk.order.no_duplicates(),
        n <= steps.len(),
        forall|i: int| 0 <= i < path.len() ==> !walk.order.contains(#[trigger] path[i]),
    ensures
        ({
            let after = stepped(table, circular, fuel, path, steps, n, walk);
            &&& continues(walk, after)
            &&& after.order.no_duplicates()
            &&& forall|i: int| 0 <= i < path.len() ==> !after.order.contains(#[trigger] path[i])
        }),
    decreases fuel, n + 1,
{
    assert(walk.order.take(walk.order.len() as int) =~= walk.order);
    if n > 0 {
        lemma_stepped(table, circular, fuel, path, steps, (n - 1) as nat, walk);
        let before = stepped(table, circular, fuel, path, steps, (n - 1) as nat, walk);
        if let StepView::Visit(id) = steps[n - 1] {
            lemma_visited(table, circular, fuel, path, id, before);
            lemma_continues(walk, before, visited(table, circular, fuel, path, id, before));
        }
    }
}

proof fn lemma_walked(
    table: Seq<(Seq<char>, Seq<StepView>)>,
    circular: Option<Seq<char>>,
    ids: Seq<Seq<char>>,
    n: int,
)
    requires
        0 <= n <= ids.len(),
    ensures
        walked(table, circular, ids, n).order.no_duplicates(),
        forall|i: int| 0 <= i < n ==> walked(table, circular, ids, n).order.contains(#[trigger] ids[i]),
    decreases n,
{
    if n > 0 {
        let before = walked(table, circular, ids, n - 1);
        lemma_walked(table, circular, ids, n - 1);
        lemma_visited(table, circular, depth(table), Seq::empty(), ids[n - 1], before);
        assert forall|i: int| 0 <= i < n implies walked(table, circular, ids, n).order.contains(
            #[trigger] ids[i],
        ) by {
            if i < n - 1 {
                lemma_contains_later(before, walked(table, circular, ids, n), ids[i]);
            }
        }
    }
}

/// A walk finishes every node that it is asked to visit, and none twice, whether or not nodes
/// depend on each other in a circle.
pub proof fn law_walk_finishes_each_once(
    table: Seq<(Seq<char>, Seq<StepView>)>,
    circular: Option<Seq<char>>,
    ids: Seq<Seq<char>>,
)
    ensures
        walk_of(table, circular, ids).order.no_duplicates(),
        forall|i: int|
            0 <= i < ids.len() ==> walk_of(table, circular, ids).order.contains(#[trigger] ids[i]),
{
    lemma_walked(table, circular, ids, ids.len() as int);
}

/// Whether `id` asks for a visit to `dep`.
pub open spec fn depends(
    table: Seq<(Seq<char>, Seq<StepView>)>,
    id: Seq<char>,
    dep: Seq<char>,
) -> bool {
    exists|k: int|
        0 <= k < steps_of(table, id).len() && #[trigger] steps_of(table, id)[k] == StepView::Visit(
            dep,
        )
}

/// Whether `rank` shows that no node depends on itself, directly or through others.
pub open spec fn ranked(
    table: Seq<(Seq<char>, Seq<StepView>)>,
    rank: spec_fn(Seq<char>) -> nat,
) -> bool {
    forall|id: Seq<char>, dep: Seq<char>| #[trigger]
        depends(table, id, dep) ==> rank(dep) < rank(id)
}

/// Whether every finished node comes after all nodes that it asks for.
pub open spec fn in_order(table: Seq<(Seq<char>, Seq<StepView>)>, order: Seq<Seq<char>>) -> bool {
    forall|p: int, dep: Seq<char>|
        0 <= p < order.len() && #[trigger] depends(table, order[p], dep) ==> order.take(
            p,
        ).contains(dep)
}

proof fn lemma_visited_in_order(
    table: Seq<(Seq<char>, Seq<StepView>)>,
    circular: Option<Seq<char>>,
    fuel: nat,
    path: Seq<Seq<char>>,
    id: Seq<char>,
    walk: Walk,
    rank: spec_fn(Seq<char>) -> nat,
)
    requires
        ranked(table, rank),
        walk.order.no_duplicates(),
        in_order(table, walk.order),
        path_ok(table, path),
        path.len() + fuel >= depth(table),
        forall|i: int| 0 <= i < path.len() ==> !walk.order.contains(#[trigger] path[i]),
        forall|i: int| 0 <= i < path.len() ==> rank(id) < rank(#[trigger] path[i]),
    ensures
        in_order(table, visited(table, circular, fuel, path, id, walk).order),
        visited(table, circular, fuel, path, id, walk).order.contains(id),
    decreases fuel, 0nat,
{
    lemma_visited(table, circular, fuel, path, id, walk);
    lemma_path_bounded(table, path);
    assert(!path.contains(id)) by {
        if path.contains(id) {
            let i = choose|i: int| 0 <= i < path.len() && path[i] == id;
            assert(rank(id) < rank(path[i]));
        }
    }
    if !walk.order.contains(id) {
        let steps = steps_of(table, id);
        let inner = path.push(id);
        let less = (fuel - 1) as nat;
        let mid = stepped(table, circular, less, inner, steps, steps.len(), walk);
        let after = visited(table, circular, fuel, path, id, walk);
        assert forall|i: int| 0 <= i < inner.len() implies !walk.order.contains(
            #[trigger] inner[i],
        ) by {
            if i < path.len() {
                assert(inner[i] == path[i]);
            }
        }
        if has_key(table, id) {
            lemma_path_push(table, path, id);
            lemma_path_bounded(table, inner);
            lemma_stepped_in_order(
                table,
                circular,
                less,
                path,
                id,
                steps.len(),
                walk,
                rank,
            );
        } else {
            assert(steps.len() == 0);
            assert(mid == walk);
        }
        assert(after.order == mid.order.push(id));
        assert forall|p: int, dep: Seq<char>|
            0 <= p < after.order.len() && #[trigger] depends(table, after.order[p], dep) implies after.order.take(
        p).contains(dep) by {
            assert(after.order.take(p) =~= mid.order.take(p));
            if p < mid.order.len() {
                assert(after.order[p] == mid.order[p]);
                assert(depends(table, mid.order[p], dep));
            } else {
                assert(after.order[p] == id);
                let k = choose|k: int|
                    0 <= k < steps.len() && #[trigger] steps[k] == StepView::Visit(dep);
                assert(steps[k] == StepView::Visit(dep));
                assert(mid.order.take(p) =~= mid.order);
            }
        }
    }
}

proof fn lemma_stepped_in_order(
    table: Seq<(Seq<char>, Seq<StepView>)>,
    circular: Option<Seq<char>>,
    fuel: nat,
    path: Seq<Seq<char>>,
    id: Seq<char>,
    n: nat,
    walk: Walk,
    rank: spec_fn(Seq<char>) -> nat,
)
    requires
        ranked(table, rank),
        n <= steps_of(table, id).len(),
        walk.order.no_duplicates(),
        in_order(table, walk.order),
        path_ok(table, path.push(id)),
        path.push(id).len() + fuel >= depth(table),
        forall|i: int|
            0 <= i < path.push(id).len() ==> !walk.order.contains(#[trigger] path.push(id)[i]),
        forall|i: int| 0 <= i < path.len() ==> rank(id) < rank(#[trigger] path[i]),
    ensures
        ({
            let after = stepped(table, circular, fuel, path.push(id), steps_of(table, id), n, walk);
            &&& in_order(table, after.order)
            &&& forall|k: int|
                0 <= k < n ==> (#[trigger] steps_of(table, id)[k] matches StepView::Visit(dep)
                    ==> after.order.contains(dep))
        }),
    decreases fuel, n + 1,
{
    if n > 0 {
        let steps = steps_of(table, id);
        let inner = path.push(id);
        let before = stepped(table, circular, fuel, inner, steps, (n - 1) as nat, walk);
        let after = stepped(table, circular, fuel, inner, steps, n, walk);
        lemma_stepped(table, circular, fuel, inner, steps, (n - 1) as nat, walk);
        lemma_stepped_in_order(table, circular, fuel, path, id, (n - 1) as nat, walk, rank);
        if let StepView::Visit(dep) = steps[n - 1] {
            assert(depends(table, id, dep));
            assert forall|i: int| 0 <= i < inner.len() implies rank(dep) < rank(#[trigger] inner[i]) by {
                if i < path.len() {
                    assert(inner[i] == path[i]);
                }
            }
            lemma_visited(table, circular, fuel, inner, dep, before);
            lemma_visited_in_order(table, circular, fuel, inner, dep, before, rank);
            assert forall|k: int| 0 <= k < n implies (#[trigger] steps[k] matches StepView::Visit(
                d,
            ) ==> after.order.contains(d)) by {
                if k < n - 1 {
                    if let StepView::Visit(d) = steps[k] {
                        lemma_contains_later(before, after, d);
                    }
                }
            }
        }
    }
}

proof fn lemma_walked_in_order(
    table: Seq<(Seq<char>, Seq<StepView>)>,
    circular: Option<Seq<char>>,
    ids: Seq<Seq<char>>,
    n: int,
    rank: spec_fn(Seq<char>) -> nat,
)
    requires
        ranked(table, rank),
        0 <= n <= ids.len(),
    ensures
        in_order(table, walked(table, circular, ids, n).order),
    decreases n,
{
    if n > 0 {
        lemma_walked_in_order(table, circular, ids, n - 1, rank);
        lemma_walked(table, circular, ids, n - 1);
        lemma_visited_in_order(
            table,
            circular,
            depth(table),
            Seq::empty(),
            ids[n - 1],
            walked(table, circular, ids, n - 1),
            rank,
        );
    }
}

/// Where no node depends on itself, directly or through others, every node is finished after all
/// nodes that it asks for.
pub proof fn law_dependencies_come_first(
    table: Seq<(Seq<char>, Seq<StepView>)>,
    circular: Option<Seq<char>>,
    ids: Seq<Seq<char>>,
    rank: spec_fn(Seq<char>) -> nat,
)
    requires
        ranked(table, rank),
    ensures
        in_order(table, walk_of(table, circular, ids).order),
{
    lemma_walked_in_order(table, circular, ids, ids.len() as int, rank);
}

proof fn lemma_visited_same(
    a: Seq<(Seq<char>, Seq<StepView>)>,
    b: Seq<(Seq<char>, Seq<StepView>)>,
    circular: Option<Seq<char>>,
    fuel: nat,
    path: Seq<Seq<char>>,
    id: Seq<char>,
    walk: Walk,
)
    requires
        forall|k: Seq<char>| #[trigger] lookup(a, k) == lookup(b, k),
    ensures
        visited(a, circular, fuel, path, id, walk) == visited(b, circular, fuel, path, id, walk),
    decreases fuel, 0nat,
{
    if !walk.order.contains(id) && !path.contains(id) && fuel > 0 {
        let steps = steps_of(a, id);
        assert(lookup(a, id) == lookup(b, id));
        lemma_stepped_same(
            a,
            b,
            circular,
            (fuel - 1) as nat,
            path.push(id),
            steps,
            steps.len(),
            walk,
        );
    }
}

proof fn lemma_stepped_same(
    a: Seq<(Seq<char>, Seq<StepView>)>,
    b: Seq<(Seq<char>, Seq<StepView>)>,
    circular: Option<Seq<char>>,
    fuel: nat,
    path: Seq<Seq<char>>,
    steps: Seq<StepView>,
    n: nat,
    walk: Walk,
)
    requires
        forall|k: Seq<char>| #[trigger] lookup(a, k) == lookup(b, k),
    ensures
        stepped(a, circular, fuel, path, steps, n, walk) == stepped(
            b,
            circular,
            fuel,
            path,
            steps,
            n,
            walk,
        ),
    decreases fuel, n + 1,
{
    if 0 < n <= steps.len() {
        lemma_stepped_same(a, b, circular, fuel, path, steps, (n - 1) as nat, walk);
        let before = stepped(a, circular, fuel, path, steps, (n - 1) as nat, walk);
        if let StepView::Visit(id) = steps[n - 1] {
            lemma_visited_same(a, b, circular, fuel, path, id, before);
        }
    }
}

/// The order in which the entries of the table are listed does not matter.
pub proof fn law_walk_depends_on_entries_only(
    a: Seq<(Seq<char>, Seq<StepView>)>,
    b: Seq<(Seq<char>, Seq<StepView>)>,
    circular: Option<Seq<char>>,
    ids: Seq<Seq<char>>,
    n: int,
)
    requires
        a.len() == b.len(),
        forall|k: Seq<char>| #[trigger] lookup(a, k) == lookup(b, k),
        0 <= n <= ids.len(),
    ensures
        walked(a, circular, ids, n) == walked(b, circular, ids, n),
    decreases n,
{
    if n > 0 {
        law_walk_depends_on_entries_only(a, b, circular, ids, n - 1);
        lemma_visited_same(
            a,
            b,
            circular,
            depth(a),
            Seq::empty(),
            ids[n - 1],
            walked(a, circular, ids, n - 1),
        );
    }
}

/// Whether `p` holds of every node that a node asks for of which `p` holds.
pub open spec fn targets_in(
    table: Seq<(Seq<char>, Seq<StepView>)>,
    p: spec_fn(Seq<char>) -> bool,
) -> bool {
    forall|id: Seq<char>, dep: Seq<char>| p(id) && #[trigger] depends(table, id, dep) ==> p(dep)
}

pub open spec fn all_in(order: Seq<Seq<char>>, p: spec_fn(Seq<char>) -> bool) -> bool {
    forall|i: int| 0 <= i < order.len() ==> p(#[trigger] order[i])
}

proof fn lemma_visited_in(
    table: Seq<(Seq<char>, Seq<StepView>)>,
    circular: Option<Seq<char>>,
    fuel: nat,
    path: Seq<Seq<char>>,
    id: Seq<char>,
    walk: Walk,
    p: spec_fn(Seq<char>) -> bool,
)
    requires
        targets_in(table, p),
        p(id),
        all_in(walk.order, p),
    ensures
        all_in(visited(table, circular, fuel, path, id, walk).order, p),
    decreases fuel, 0nat,
{
    if !walk.order.contains(id) && !path.contains(id) && fuel > 0 {
        lemma_stepped_in(
            table,
            circular,
            (fuel - 1) as nat,
            path.push(id),
            id,
            steps_of(table, id).len(),
            walk,
            p,
        );
    }
}

proof fn lemma_stepped_in(
    table: Seq<(Seq<char>, Seq<StepView>)>,
    circular: Option<Seq<char>>,
    fuel: nat,
    path: Seq<Seq<char>>,
    id: Seq<char>,
    n: nat,
    walk: Walk,
    p: spec_fn(Seq<char>) -> bool,
)
    requires
        targets_in(table, p),
        p(id),
        all_in(walk.order, p),
        n <= steps_of(table, id).len(),
    ensures
        all_in(stepped(table, circular, fuel, path, steps_of(table, id), n, walk).order, p),
    decreases fuel, n + 1,
{
    if n > 0 {
        let steps = steps_of(table, id);
        lemma_stepped_in(table, circular, fuel, path, id, (n - 1) as nat, walk, p);
        let before = stepped(table, circular, fuel, path, steps, (n - 1) as nat, walk);
        if let StepView::Visit(dep) = steps[n - 1] {
            assert(depends(table, id, dep));
            lemma_visited_in(table, circular, fuel, path, dep, before, p);
        }
    }
}

/// A walk finishes only nodes that it was asked to visit or that it came to from these.
pub proof fn law_walk_stays_inside(
    table: Seq<(Seq<char>, Seq<StepView>)>,
    circular: Option<Seq<char>>,
    ids: Seq<Seq<char>>,
    n: int,
    p: spec_fn(Seq<char>) -> bool,
)
    requires
        targets_in(table, p),
        all_in(ids, p),
        0 <= n <= ids.len(),
    ensures
        all_in(walked(table, circular, ids, n).order, p),
    decreases n,
{
    if n > 0 {
        law_walk_stays_inside(table, circular, ids, n - 1, p);
        lemma_visited_in(
            table,
            circular,
            depth(table),
            Seq::empty(),
            ids[n - 1],
            walked(table, circular, ids, n - 1),
            p,
        );
    }
}

/// Whether every node that a finished node asks for is finished or worked on.
pub open spec fn settled(
    table: Seq<(Seq<char>, Seq<StepView>)>,
    order: Seq<Seq<char>>,
    path: Seq<Seq<char>>,
) -> bool {
    forall|p: int, dep: Seq<char>|
        0 <= p < order.len() && #[trigger] depends(table, order[p], dep) ==> order.contains(dep)
            || path.contains(dep)
}

proof fn lemma_visited_settled(
    table: Seq<(Seq<char>, Seq<StepView>)>,
    circular: Option<Seq<char>>,
    fuel: nat,
    path: Seq<Seq<char>>,
    id: Seq<char>,
    walk: Walk,
)
    requires
        walk.order.no_duplicates(),
        settled(table, walk.order, path),
        path_ok(table, path),
        path.len() + fuel >= depth(table),
        forall|i: int| 0 <= i < path.len() ==> !walk.order.contains(#[trigger] path[i]),
    ensures
        ({
            let after = visited(table, circular, fuel, path, id, walk);
            settled(table, after.order, path) && (after.order.contains(id) || path.contains(id))
        }),
    decreases fuel, 0nat,
{
    lemma_visited(table, circular, fuel, path, id, walk);
    lemma_path_bounded(table, path);
    if !walk.order.contains(id) && !path.contains(id) {
        let steps = steps_of(table, id);
        let inner = path.push(id);
        let less = (fuel - 1) as nat;
        let mid = stepped(table, circular, less, inner, steps, steps.len(), walk);
        let after = visited(table, circular, fuel, path, id, walk);
        assert forall|i: int| 0 <= i < inner.len() implies !walk.order.contains(
            #[trigger] inner[i],
        ) by {
            if i < path.len() {
                assert(inner[i] == path[i]);
            }
        }
        assert forall|p: int, dep: Seq<char>|
            0 <= p < walk.order.len() && #[trigger] depends(table, walk.order[p], dep) implies walk.order.contains(
        dep) || inner.contains(dep) by {
            if path.contains(dep) {
                let i = choose|i: int| 0 <= i < path.len() && path[i] == dep;
                assert(inner[i] == dep);
            }
        }
        if has_key(table, id) {
            lemma_path_push(table, path, id);
            lemma_stepped_settled(table, circular, less, path, id, steps.len(), walk);
        } else {
            assert(steps.len() == 0);
            assert(mid == walk);
        }
        assert(after.order == mid.order.push(id));
        assert(after.order[mid.order.len() as int] == id);
        assert forall|p: int, dep: Seq<char>|
            0 <= p < after.order.len() && #[trigger] depends(table, after.order[p], dep) implies after.order.contains(
        dep) || path.contains(dep) by {
            if p < mid.order.len() {
                assert(after.order[p] == mid.order[p]);
                assert(depends(table, mid.order[p], dep));
            } else {
                let k = choose|k: int|
                    0 <= k < steps.len() && #[trigger] steps[k] == StepView::Visit(dep);
                assert(steps[k] == StepView::Visit(dep));
            }
            if mid.order.contains(dep) {
                let i = choose|i: int| 0 <= i < mid.order.len() && mid.order[i] == dep;
                assert(after.order[i] == dep);
            } else {
                let i = choose|i: int| 0 <= i < inner.len() && inner[i] == dep;
                if i < path.len() {
                    assert(path[i] == dep);
                }
            }
        }
    }
}

proof fn lemma_stepped_settled(
    table: Seq<(Seq<char>, Seq<StepView>)>,
    circular: Option<Seq<char>>,
    fuel: nat,
    path: Seq<Seq<char>>,
    id: Seq<char>,
    n: nat,
    walk: Walk,
)
    requires
        n <= steps_of(table, id).len(),
        walk.order.no_duplicates(),
        settled(table, walk.order, path.push(id)),
        path_ok(table, path.push(id)),
        path.push(id).len() + fuel >= depth(table),
        forall|i: int|
            0 <= i < path.push(id).len() ==> !walk.order.contains(#[trigger] path.push(id)[i]),
    ensures
        ({
            let inner = path.push(id);
            let after = stepped(table, circular, fuel, inner, steps_of(table, id), n, walk);
            &&& settled(table, after.order, inner)
            &&& forall|k: int|
                0 <= k < n ==> (#[trigger] steps_of(table, id)[k] matches StepView::Visit(dep)
                    ==> after.order.contains(dep) || inner.contains(dep))
        }),
    decreases fuel, n + 1,
{
    if n > 0 {
        let steps = steps_of(table, id);
        let inner = path.push(id);
        let before = stepped(table, circular, fuel, inner, steps, (n - 1) as nat, walk);
        let after = stepped(table, circular, fuel, inner, steps, n, walk);
        lemma_stepped(table, circular, fuel, inner, steps, (n - 1) as nat, walk);
        lemma_stepped_settled(table, circular, fuel, path, id, (n - 1) as nat, walk);
        if let StepView::Visit(dep) = steps[n - 1] {
            lemma_visited(table, circular, fuel, inner, dep, before);
            lemma_visited_settled(table, circular, fuel, inner, dep, before);
            assert forall|k: int| 0 <= k < n implies (#[trigger] steps[k] matches StepView::Visit(
                d,
            ) ==> after.order.contains(d) || inner.contains(d)) by {
                if k < n - 1 {
                    if let StepView::Visit(d) = steps[k] {
                        if before.order.contains(d) {
                            lemma_contains_later(before, after, d);
                        }
                    }
                }
            }
        }
    }
}

/// A walk finishes every node that a finished node asks for, also where nodes depend on each other in
/// a circle.
pub proof fn law_walk_is_closed(
    table: Seq<(Seq<char>, Seq<StepView>)>,
    circular: Option<Seq<char>>,
    ids: Seq<Seq<char>>,
    n: int,
)
    requires
        0 <= n <= ids.len(),
    ensures
        settled(table, walked(table, circular, ids, n).order, Seq::empty()),
    decreases n,
{
    if n > 0 {
        law_walk_is_closed(table, circular, ids, n - 1);
        lemma_walked(table, circular, ids, n - 1);
        lemma_visited_settled(
            table,
            circular,
            depth(table),
            Seq::empty(),
            ids[n - 1],
            walked(table, circular, ids, n - 1),
        );
    }
}

} // verus!
