//! The closed set of eight cauldron interactions, and the exhaustive
//! breadth-first search that records, for every reachable state, a shortest
//! action sequence producing it from plain water.

use crate::liquid::spec_apply_ingredient;
use crate::liquid::spec_dilute;
use crate::liquid::spec_wart;
use crate::liquid::lemma_transitions_range;
use crate::liquid::LiquidData;
use crate::liquid::PotionIngredient;
use vstd::prelude::*;
use vstd::string::StringExecFns;

verus! {

/// Number of distinct liquid states: all 15-bit values.
pub const STATE_COUNT: usize = 32768;

/// Represents one interaction with the container.
#[derive(Clone, Copy, PartialEq, Eq, Structural, Debug)]
pub enum Action {
    AddIngredient(PotionIngredient),
    Dilute,
    AddNetherWart,
}

/// The state reached from `v` by one action.
pub open spec fn spec_apply_action(a: Action, v: u16) -> u16 {
    match a {
        Action::AddIngredient(i) => spec_apply_ingredient(v, i),
        Action::Dilute => spec_dilute(v),
        Action::AddNetherWart => spec_wart(v),
    }
}

/// The state reached from `v` by a sequence of actions, applied first to
/// last.
pub open spec fn spec_run_path(path: Seq<Action>, v: u16) -> u16
    decreases path.len(),
{
    if path.len() == 0 {
        v
    } else {
        spec_apply_action(path.last(), spec_run_path(path.drop_last(), v))
    }
}

/// Actions keep the state inside the 15-bit space.
pub proof fn lemma_apply_action_range(a: Action, v: u16)
    requires
        v < 0x8000,
    ensures
        spec_apply_action(a, v) < 0x8000,
{
    lemma_transitions_range(v);
}

/// Every path from a 15-bit state ends in a 15-bit state.
pub proof fn lemma_run_path_range(path: Seq<Action>, v: u16)
    requires
        v < 0x8000,
    ensures
        spec_run_path(path, v) < 0x8000,
    decreases path.len(),
{
    if path.len() > 0 {
        lemma_run_path_range(path.drop_last(), v);
        lemma_apply_action_range(path.last(), spec_run_path(path.drop_last(), v));
    }
}

/// Appending one action to a path applies that action to the path's
/// result.
pub proof fn lemma_run_path_push(path: Seq<Action>, a: Action, v: u16)
    ensures
        spec_run_path(path.push(a), v) == spec_apply_action(a, spec_run_path(path, v)),
{
    assert(path.push(a).drop_last() =~= path);
    assert(path.push(a).last() == a);
}

/// The canonical ordering of the eight actions: the six ingredients in
/// their declared order, then dilution, then the catalyst.
pub open spec fn all_actions_seq() -> Seq<Action> {
    seq![
        Action::AddIngredient(PotionIngredient::Sugar),
        Action::AddIngredient(PotionIngredient::GhastTear),
        Action::AddIngredient(PotionIngredient::SpiderEye),
        Action::AddIngredient(PotionIngredient::FermentedSpiderEye),
        Action::AddIngredient(PotionIngredient::BlazePowder),
        Action::AddIngredient(PotionIngredient::MagmaCream),
        Action::Dilute,
        Action::AddNetherWart,
    ]
}

/// The canonical ordering lists every action.
pub proof fn lemma_all_actions_exhaustive(a: Action)
    ensures
        exists|k: int| 0 <= k < 8 && all_actions_seq()[k] == a,
{
    match a {
        Action::AddIngredient(i) => {
            match i {
                PotionIngredient::Sugar => {
                    assert(all_actions_seq()[0] == a);
                },
                PotionIngredient::GhastTear => {
                    assert(all_actions_seq()[1] == a);
                },
                PotionIngredient::SpiderEye => {
                    assert(all_actions_seq()[2] == a);
                },
                PotionIngredient::FermentedSpiderEye => {
                    assert(all_actions_seq()[3] == a);
                },
                PotionIngredient::BlazePowder => {
                    assert(all_actions_seq()[4] == a);
                },
                PotionIngredient::MagmaCream => {
                    assert(all_actions_seq()[5] == a);
                },
            }
        },
        Action::Dilute => {
            assert(all_actions_seq()[6] == a);
        },
        Action::AddNetherWart => {
            assert(all_actions_seq()[7] == a);
        },
    }
}

/// The eight actions in canonical order.
pub fn all_actions() -> (r: Vec<Action>)
    ensures
        r@ == all_actions_seq(),
{
    let mut r: Vec<Action> = Vec::new();
    r.push(Action::AddIngredient(PotionIngredient::Sugar));
    r.push(Action::AddIngredient(PotionIngredient::GhastTear));
    r.push(Action::AddIngredient(PotionIngredient::SpiderEye));
    r.push(Action::AddIngredient(PotionIngredient::FermentedSpiderEye));
    r.push(Action::AddIngredient(PotionIngredient::BlazePowder));
    r.push(Action::AddIngredient(PotionIngredient::MagmaCream));
    r.push(Action::Dilute);
    r.push(Action::AddNetherWart);
    proof {
        assert(r@ =~= all_actions_seq());
    }
    r
}

impl Action {
    /// Applies this action to a liquid state.
    pub fn apply_to(&self, ld: LiquidData) -> (r: LiquidData)
        ensures
            r.0 == spec_apply_action(*self, ld.0),
    {
        match self {
            Action::AddIngredient(ing) => ld.apply_ingredient(*ing),
            Action::Dilute => ld.dilute(),
            Action::AddNetherWart => ld.apply_wart(),
        }
    }

    /// The single-character code of this action.
    pub open spec fn spec_code(self) -> char {
        match self {
            Action::AddIngredient(PotionIngredient::Sugar) => 'S',
            Action::AddIngredient(PotionIngredient::GhastTear) => 'G',
            Action::AddIngredient(PotionIngredient::SpiderEye) => 'E',
            Action::AddIngredient(PotionIngredient::FermentedSpiderEye) => 'F',
            Action::AddIngredient(PotionIngredient::BlazePowder) => 'B',
            Action::AddIngredient(PotionIngredient::MagmaCream) => 'C',
            Action::Dilute => 'W',
            Action::AddNetherWart => 'N',
        }
    }
}

/// Renders an action sequence as its single-character codes, in order.
pub fn format_actions(actions: &Vec<Action>) -> (r: String)
    ensures
        r@.len() == actions@.len(),
        forall|k: int| 0 <= k < actions@.len() ==> r@[k] == actions@[k].spec_code(),
{
    let mut r = String::new();
    let mut k: usize = 0;
    while k < actions.len()
        invariant
            0 <= k <= actions@.len(),
            r@.len() == k,
            forall|j: int| 0 <= j < k ==> r@[j] == actions@[j].spec_code(),
        decreases actions@.len() - k,
    {
        let code: &str = match actions[k] {
            Action::AddIngredient(PotionIngredient::Sugar) => "S",
            Action::AddIngredient(PotionIngredient::GhastTear) => "G",
            Action::AddIngredient(PotionIngredient::SpiderEye) => "E",
            Action::AddIngredient(PotionIngredient::FermentedSpiderEye) => "F",
            Action::AddIngredient(PotionIngredient::BlazePowder) => "B",
            Action::AddIngredient(PotionIngredient::MagmaCream) => "C",
            Action::Dilute => "W",
            Action::AddNetherWart => "N",
        };
        proof {
            reveal_strlit("S");
            reveal_strlit("G");
            reveal_strlit("E");
            reveal_strlit("F");
            reveal_strlit("B");
            reveal_strlit("C");
            reveal_strlit("W");
            reveal_strlit("N");
            assert(code@.len() == 1 && code@[0] == actions@[k as int].spec_code());
        }
        r.append(code);
        k += 1;
    }
    r
}

/// Copies an action path.
fn clone_path(p: &Vec<Action>) -> (r: Vec<Action>)
    ensures
        r@ == p@,
{
    let mut r: Vec<Action> = Vec::new();
    let mut k: usize = 0;
    while k < p.len()
        invariant
            0 <= k <= p@.len(),
            r@ == p@.subrange(0, k as int),
        decreases p@.len() - k,
    {
        r.push(p[k]);
        proof {
            assert(r@ =~= p@.subrange(0, k + 1 as int));
        }
        k += 1;
    }
    proof {
        assert(r@ =~= p@);
    }
    r
}

/// Every recorded path leads from plain water to the state it is recorded
/// under.
pub open spec fn entries_sound(t: Seq<Option<Vec<Action>>>) -> bool {
    forall|s: int|
        0 <= s < t.len() && (#[trigger] t[s]) is Some ==> spec_run_path(t[s].unwrap()@, 0u16) == s
}

/// No action sequence shorter than a recorded path reaches its state.
pub open spec fn entries_minimal(t: Seq<Option<Vec<Action>>>) -> bool {
    forall|s: int, q: Seq<Action>|
        #![trigger t[s], spec_run_path(q, 0u16)]
        0 <= s < t.len() && t[s] is Some && spec_run_path(q, 0u16) == s ==> t[s].unwrap()@.len()
            <= q.len()
}

/// Every state reachable by at most `d` actions is recorded.
spec fn entries_complete_upto(t: Seq<Option<Vec<Action>>>, d: nat) -> bool {
    forall|q: Seq<Action>|
        q.len() <= d ==> t[#[trigger] spec_run_path(q, 0u16) as int] is Some
}

/// Every recorded path has at most `d` actions.
spec fn entries_len_at_most(t: Seq<Option<Vec<Action>>>, d: nat) -> bool {
    forall|s: int|
        0 <= s < t.len() && (#[trigger] t[s]) is Some ==> t[s].unwrap()@.len() <= d
}

/// Every successor of state `s` is inside the state space and recorded.
spec fn successors_recorded(t: Seq<Option<Vec<Action>>>, s: u16) -> bool {
    forall|a: Action|
        (#[trigger] spec_apply_action(a, s)) < STATE_COUNT && t[spec_apply_action(a, s) as int]
            is Some
}

/// Every successor of a state recorded with fewer than `d` actions is
/// recorded.
spec fn entries_closed_below(t: Seq<Option<Vec<Action>>>, d: nat) -> bool {
    forall|s: int, a: Action|
        #![trigger t[s], spec_apply_action(a, s as u16)]
        0 <= s < t.len() && t[s] is Some && t[s].unwrap()@.len() < d ==> t[spec_apply_action(
            a,
            s as u16,
        ) as int] is Some
}

/// Each frontier pair holds a state recorded with exactly the path it
/// carries, of length `d`.
spec fn frontier_ok(
    t: Seq<Option<Vec<Action>>>,
    f: Seq<(Vec<Action>, u16)>,
    d: nat,
) -> bool {
    forall|j: int|
        0 <= j < f.len() ==> {
            &&& (#[trigger] f[j]).1 < t.len()
            &&& t[f[j].1 as int] is Some
            &&& t[f[j].1 as int].unwrap()@ == f[j].0@
            &&& f[j].0@.len() == d
        }
}

/// Every state recorded with a path of length `d` stands in the frontier.
spec fn frontier_complete(
    t: Seq<Option<Vec<Action>>>,
    f: Seq<(Vec<Action>, u16)>,
    d: nat,
) -> bool {
    forall|s: int|
        0 <= s < t.len() && (#[trigger] t[s]) is Some && t[s].unwrap()@.len() == d
            ==> exists|j: int|
            0 <= j < f.len() && (#[trigger] f[j]).1 == s && f[j].0@ == t[s].unwrap()@
}

/// How many states the table does not reach.
spec fn unset_count(t: Seq<Option<Vec<Action>>>) -> nat
    decreases t.len(),
{
    if t.len() == 0 {
        0nat
    } else {
        unset_count(t.drop_last()) + (if t.last() is None {
            1nat
        } else {
            0nat
        })
    }
}

/// Recording one unreached state lowers the unreached count by one.
proof fn lemma_unset_count_update(t: Seq<Option<Vec<Action>>>, i: int, p: Vec<Action>)
    requires
        0 <= i < t.len(),
        t[i] is None,
    ensures
        unset_count(t.update(i, Some(p))) + 1 == unset_count(t),
    decreases t.len(),
{
    let t2 = t.update(i, Some(p));
    if i == t.len() - 1 {
        assert(t2.drop_last() =~= t.drop_last());
    } else {
        assert(t2.drop_last() =~= t.drop_last().update(i, Some(p)));
        lemma_unset_count_update(t.drop_last(), i, p);
    }
}

/// In a table closed under every action and holding the zero state, every
/// path from plain water ends in a recorded state.
proof fn lemma_closure_complete(t: Seq<Option<Vec<Action>>>, q: Seq<Action>)
    requires
        t.len() == STATE_COUNT,
        t[0] is Some,
        forall|s: int, a: Action|
            #![trigger t[s], spec_apply_action(a, s as u16)]
            0 <= s < t.len() && t[s] is Some ==> t[spec_apply_action(a, s as u16) as int] is Some,
    ensures
        t[spec_run_path(q, 0u16) as int] is Some,
    decreases q.len(),
{
    if q.len() > 0 {
        lemma_closure_complete(t, q.drop_last());
        lemma_run_path_range(q.drop_last(), 0u16);
        let s0 = spec_run_path(q.drop_last(), 0u16);
        let si: int = s0 as int;
        assert(si as u16 == s0);
        assert(t[si] is Some);
        assert(t[spec_apply_action(q.last(), si as u16) as int] is Some);
    }
}

/// A mapping from every 15-bit state to a shortest action sequence that
/// reaches it from plain water, or `None` where the search reached no such
/// state.
pub struct SolutionTable {
    /// One entry per state value, indexed by the state itself.
    pub entries: Vec<Option<Vec<Action>>>,
}

/// How many states the table reaches.
pub open spec fn reached_count_spec(t: Seq<Option<Vec<Action>>>) -> nat
    decreases t.len(),
{
    if t.len() == 0 {
        0nat
    } else {
        reached_count_spec(t.drop_last()) + (if t.last() is Some {
            1nat
        } else {
            0nat
        })
    }
}

impl SolutionTable {
    /// The number of states with a recorded action sequence.
    pub fn reached_count(&self) -> (r: usize)
        ensures
            r == reached_count_spec(self.entries@),
    {
        let mut c: usize = 0;
        let mut k: usize = 0;
        while k < self.entries.len()
            invariant
                0 <= k <= self.entries@.len(),
                c <= k,
                c == reached_count_spec(self.entries@.subrange(0, k as int)),
            decreases self.entries@.len() - k,
        {
            proof {
                assert(self.entries@.subrange(0, k + 1 as int).drop_last() =~= self.entries@
                    .subrange(0, k as int));
                assert(self.entries@.subrange(0, k + 1 as int).last() == self.entries@[k as int]);
            }
            if self.entries[k].is_some() {
                c += 1;
            }
            k += 1;
        }
        proof {
            assert(self.entries@.subrange(0, self.entries@.len() as int) =~= self.entries@);
        }
        c
    }

    /// The greatest length among the recorded action sequences.
    pub fn max_path_len(&self) -> (r: usize)
        requires
            exists|s: int| 0 <= s < self.entries@.len() && (#[trigger] self.entries@[s]) is Some,
        ensures
            exists|s: int|
                0 <= s < self.entries@.len() && (#[trigger] self.entries@[s]) is Some
                    && self.entries@[s].unwrap()@.len() == r,
            forall|s: int|
                0 <= s < self.entries@.len() && (#[trigger] self.entries@[s]) is Some
                    ==> self.entries@[s].unwrap()@.len() <= r,
    {
        let mut best: usize = 0;
        let mut found = false;
        let ghost mut wit: int = 0;
        let mut k: usize = 0;
        while k < self.entries.len()
            invariant
                0 <= k <= self.entries@.len(),
                found <==> exists|s: int|
                    0 <= s < k && (#[trigger] self.entries@[s]) is Some,
                found ==> 0 <= wit < k && self.entries@[wit] is Some
                    && self.entries@[wit].unwrap()@.len() == best,
                !found ==> best == 0,
                forall|s: int|
                    0 <= s < k && (#[trigger] self.entries@[s]) is Some ==> self.entries@[s]
                        .unwrap()@.len() <= best,
            decreases self.entries@.len() - k,
        {
            match &self.entries[k] {
                Some(p) => {
                    if !found || p.len() > best {
                        best = p.len();
                        proof {
                            wit = k as int;
                        }
                    }
                    found = true;
                },
                None => {},
            }
            k += 1;
        }
        best
    }
}

/// Performs a level-synchronized breadth-first search over the full
/// 15-bit state space, starting from plain water, and records the first
/// (shortest) action sequence that reaches each discovered state.
#[verifier::loop_isolation(false)]
#[verifier::rlimit(60)]
pub fn run_search() -> (table: SolutionTable)
    ensures
        table.entries@.len() == STATE_COUNT,
        entries_sound(table.entries@),
        entries_minimal(table.entries@),
        forall|q: Seq<Action>| table.entries@[#[trigger] spec_run_path(q, 0u16) as int] is Some,
        table.entries@[0] is Some && table.entries@[0].unwrap()@.len() == 0,
{
    let mut entries: Vec<Option<Vec<Action>>> = Vec::new();
    let mut n: usize = 0;
    while n < STATE_COUNT
        invariant
            entries@.len() == n,
            n <= STATE_COUNT,
            forall|s: int| 0 <= s < n ==> (#[trigger] entries@[s]) is None,
        decreases STATE_COUNT - n,
    {
        entries.push(None);
        n += 1;
    }
    let empty_path: Vec<Action> = Vec::new();
    entries.set(0, Some(empty_path));
    let mut frontier: Vec<(Vec<Action>, u16)> = Vec::new();
    let root_path: Vec<Action> = Vec::new();
    frontier.push((root_path, 0u16));
    let ghost mut depth: nat = 0;
    proof {
        assert(entries@[0].unwrap()@ =~= Seq::<Action>::empty());
        assert(entries@[0].unwrap()@.len() == 0);
        assert forall|s: int|
            0 <= s < STATE_COUNT && (#[trigger] entries@[s]) is Some implies spec_run_path(
            entries@[s].unwrap()@,
            0u16,
        ) == s by {
            assert(s == 0);
        }
        assert(frontier@[0].0@ =~= Seq::<Action>::empty());
    }
    while frontier.len() > 0
        invariant
            entries@.len() == STATE_COUNT,
            entries@[0] is Some && entries@[0].unwrap()@.len() == 0,
            entries_sound(entries@),
            entries_minimal(entries@),
            entries_len_at_most(entries@, depth),
            entries_complete_upto(entries@, depth),
            entries_closed_below(entries@, depth),
            frontier_ok(entries@, frontier@, depth),
            frontier_complete(entries@, frontier@, depth),
        decreases unset_count(entries@), frontier@.len(),
    {
        let ghost entries0 = entries@;
        let ghost frontier_snap = frontier@;
        let mut next_frontier: Vec<(Vec<Action>, u16)> = Vec::new();
        let acts = all_actions();
        let mut fi: usize = 0;
        while fi < frontier.len()
            invariant
                0 <= fi <= frontier_snap.len(),
                frontier@ == frontier_snap,
                entries@.len() == STATE_COUNT,
                forall|s: int|
                    0 <= s < STATE_COUNT && (#[trigger] entries0[s]) is Some ==> entries@[s]
                        == entries0[s],
                forall|s: int|
                    0 <= s < STATE_COUNT && (#[trigger] entries@[s]) is Some ==> (entries@[s]
                        == entries0[s] || (entries0[s] is None && entries@[s].unwrap()@.len()
                        == depth + 1)),
                entries_sound(entries@),
                entries_minimal(entries@),
                unset_count(entries@) + next_frontier@.len() == unset_count(entries0),
                frontier_ok(entries@, next_frontier@, (depth + 1) as nat),
                forall|s: int|
                    0 <= s < STATE_COUNT && (#[trigger] entries@[s]) is Some
                        && entries@[s].unwrap()@.len() == depth + 1 ==> exists|j: int|
                        0 <= j < next_frontier@.len() && (#[trigger] next_frontier@[j]).1 == s
                            && next_frontier@[j].0@ == entries@[s].unwrap()@,
                forall|j: int|
                    0 <= j < fi ==> successors_recorded(
                        entries@,
                        (#[trigger] frontier_snap[j]).1,
                    ),
            decreases frontier_snap.len() - fi,
        {
            let cur_state = frontier[fi].1;
            let ghost cur_path: Seq<Action> = frontier_snap[fi as int].0@;
            proof {
                assert(entries0[cur_state as int].unwrap()@ == cur_path);
                assert(spec_run_path(cur_path, 0u16) == cur_state);
            }
            let mut ai: usize = 0;
            while ai < acts.len()
                invariant
                    0 <= ai <= 8,
                    entries@.len() == STATE_COUNT,
                    forall|s: int|
                        0 <= s < STATE_COUNT && (#[trigger] entries0[s]) is Some ==> entries@[s]
                            == entries0[s],
                    forall|s: int|
                        0 <= s < STATE_COUNT && (#[trigger] entries@[s]) is Some ==> (entries@[s]
                            == entries0[s] || (entries0[s] is None && entries@[s].unwrap()@.len()
                            == depth + 1)),
                    entries_sound(entries@),
                    entries_minimal(entries@),
                    unset_count(entries@) + next_frontier@.len() == unset_count(entries0),
                    frontier_ok(entries@, next_frontier@, (depth + 1) as nat),
                    forall|s: int|
                        0 <= s < STATE_COUNT && (#[trigger] entries@[s]) is Some
                            && entries@[s].unwrap()@.len() == depth + 1 ==> exists|j: int|
                            0 <= j < next_frontier@.len() && (#[trigger] next_frontier@[j]).1 == s
                                && next_frontier@[j].0@ == entries@[s].unwrap()@,
                    forall|j: int|
                        0 <= j < fi ==> successors_recorded(
                            entries@,
                            (#[trigger] frontier_snap[j]).1,
                        ),
                    forall|k: int|
                        0 <= k < ai ==> spec_apply_action(#[trigger] acts@[k], cur_state)
                            < STATE_COUNT && entries@[spec_apply_action(
                            acts@[k],
                            cur_state,
                        ) as int] is Some,
                decreases 8 - ai,
            {
                let a = acts[ai];
                let new_state = a.apply_to(LiquidData(cur_state));
                proof {
                    lemma_apply_action_range(a, cur_state);
                }
                let ns = new_state.0 as usize;
                if entries[ns].is_none() {
                    let mut new_path = clone_path(&frontier[fi].0);
                    new_path.push(a);
                    proof {
                        lemma_run_path_push(cur_path, a, 0u16);
                        assert(new_path@ == cur_path.push(a));
                        assert(spec_run_path(new_path@, 0u16) == new_state.0);
                        assert(new_path@.len() == depth + 1);
                    }
                    let stored_path = clone_path(&new_path);
                    let ghost entries_before = entries@;
                    let ghost nf_before = next_frontier@;
                    proof {
                        lemma_unset_count_update(entries@, ns as int, stored_path);
                    }
                    entries.set(ns, Some(stored_path));
                    next_frontier.push((new_path, new_state.0));
                    proof {
                        assert forall|s: int, q: Seq<Action>|
                            #![trigger entries@[s], spec_run_path(q, 0u16)]
                            0 <= s < STATE_COUNT && entries@[s] is Some && spec_run_path(q, 0u16)
                                == s implies entries@[s].unwrap()@.len() <= q.len() by {
                            if s == ns as int {
                                if q.len() <= depth {
                                    assert(entries0[spec_run_path(q, 0u16) as int] is Some);
                                    assert(false);
                                }
                            } else {
                                assert(entries_before[s] == entries@[s]);
                            }
                        }
                        assert forall|s: int|
                            0 <= s < STATE_COUNT && (#[trigger] entries@[s]) is Some
                                && entries@[s].unwrap()@.len() == depth + 1 implies exists|j: int|
                            0 <= j < next_frontier@.len() && (#[trigger] next_frontier@[j]).1 == s
                                && next_frontier@[j].0@ == entries@[s].unwrap()@ by {
                            if s == ns as int {
                                let j = next_frontier@.len() - 1;
                                assert(0 <= j < next_frontier@.len() && next_frontier@[j].1 == s
                                    && next_frontier@[j].0@ == entries@[s].unwrap()@);
                            } else {
                                assert(entries_before[s] == entries@[s]);
                                let j = choose|j: int|
                                    0 <= j < nf_before.len() && (#[trigger] nf_before[j]).1 == s
                                        && nf_before[j].0@ == entries_before[s].unwrap()@;
                                assert(0 <= j < next_frontier@.len() && next_frontier@[j].1 == s
                                    && next_frontier@[j].0@ == entries@[s].unwrap()@);
                            }
                        }
                    }
                } else {
                    proof {
                        assert(entries@[spec_apply_action(a, cur_state) as int] is Some);
                    }
                }
                ai += 1;
            }
            proof {
                assert forall|a: Action|
                    (#[trigger] spec_apply_action(a, cur_state)) < STATE_COUNT && entries@[
                    spec_apply_action(a, cur_state) as int] is Some by {
                    lemma_all_actions_exhaustive(a);
                    let k = choose|k: int| 0 <= k < 8 && all_actions_seq()[k] == a;
                    assert(spec_apply_action(acts@[k], cur_state) < STATE_COUNT && entries@[
                    spec_apply_action(acts@[k], cur_state) as int] is Some);
                }
                assert(successors_recorded(entries@, frontier_snap[fi as int].1));
            }
            fi += 1;
        }
        proof {
            assert forall|q: Seq<Action>| q.len() <= depth + 1 implies entries@[
            #[trigger] spec_run_path(q, 0u16) as int] is Some by {
                lemma_run_path_range(q, 0u16);
                if q.len() <= depth {
                    assert(entries0[spec_run_path(q, 0u16) as int] is Some);
                } else {
                    let q0 = q.drop_last();
                    let a = q.last();
                    lemma_run_path_range(q0, 0u16);
                    let t0 = spec_run_path(q0, 0u16);
                    assert(entries0[t0 as int] is Some);
                    let pt = entries0[t0 as int].unwrap();
                    assert(q =~= q0.push(a));
                    lemma_run_path_push(q0, a, 0u16);
                    if pt@.len() == depth {
                        let j = choose|j: int|
                            0 <= j < frontier_snap.len() && (#[trigger] frontier_snap[j]).1 == t0
                                && frontier_snap[j].0@ == entries0[t0 as int].unwrap()@;
                        assert(successors_recorded(entries@, frontier_snap[j].1));
                        assert(entries@[spec_apply_action(a, t0) as int] is Some);
                    } else {
                        let si: int = t0 as int;
                        assert(si as u16 == t0);
                        assert(entries0[spec_apply_action(a, si as u16) as int] is Some);
                    }
                }
            }
            assert forall|s: int, a: Action|
                #![trigger entries@[s], spec_apply_action(a, s as u16)]
                0 <= s < STATE_COUNT && entries@[s] is Some && entries@[s].unwrap()@.len() < depth
                    + 1 implies entries@[spec_apply_action(a, s as u16) as int] is Some by {
                lemma_apply_action_range(a, s as u16);
                if entries0[s] is Some {
                    let p = entries0[s].unwrap();
                    if p@.len() == depth {
                        let j = choose|j: int|
                            0 <= j < frontier_snap.len() && (#[trigger] frontier_snap[j]).1 == s
                                && frontier_snap[j].0@ == entries0[s].unwrap()@;
                        assert(successors_recorded(entries@, frontier_snap[j].1));
                    } else {
                        assert(entries0[spec_apply_action(a, s as u16) as int] is Some);
                    }
                } else {
                    assert(entries@[s].unwrap()@.len() == depth + 1);
                    assert(false);
                }
            }
        }
        frontier = next_frontier;
        proof {
            depth = depth + 1;
        }
    }
    proof {
        assert forall|s: int, a: Action|
            #![trigger entries@[s], spec_apply_action(a, s as u16)]
            0 <= s < STATE_COUNT && entries@[s] is Some implies entries@[spec_apply_action(
            a,
            s as u16,
        ) as int] is Some by {
            if entries@[s].unwrap()@.len() == depth {
                assert(exists|j: int|
                    0 <= j < frontier@.len() && (#[trigger] frontier@[j]).1 == s && frontier@[j].0@
                        == entries@[s].unwrap()@);
                assert(false);
            }
        }
        assert forall|q: Seq<Action>| entries@[#[trigger] spec_run_path(q, 0u16) as int]
            is Some by {
            lemma_closure_complete(entries@, q);
        }
    }
    SolutionTable { entries }
}

} // verus!
