use vstd::prelude::*;

use std::collections::HashSet;

use crate::changes::UmlStateMachineOrdinalMovement;

verus! {

broadcast use vstd::std_specs::hash::group_hash_axioms;

/// One step of a move up, at the pair `(i, i + 1)`: a selected element
/// passes the unselected one just before it.
pub open spec fn up_swaps(v: Seq<u128>, sel: Set<u128>, i: int) -> bool {
    sel.contains(v[i + 1]) && !sel.contains(v[i])
}

pub open spec fn swapped(v: Seq<u128>, i: int) -> Seq<u128> {
    v.update(i, v[i + 1]).update(i + 1, v[i])
}

/// The order after the first `i` steps of a move up, taken from the front.
pub open spec fn up_state(s: Seq<u128>, sel: Set<u128>, i: nat) -> Seq<u128>
    decreases i,
{
    if i == 0 {
        s
    } else {
        let v = up_state(s, sel, (i - 1) as nat);
        if up_swaps(v, sel, i - 1) {
            swapped(v, i - 1)
        } else {
            v
        }
    }
}

/// The elements that moved in the first `i` steps of a move up.
pub open spec fn up_moved(s: Seq<u128>, sel: Set<u128>, i: nat) -> Set<u128>
    decreases i,
{
    if i == 0 {
        Set::empty()
    } else {
        let v = up_state(s, sel, (i - 1) as nat);
        if up_swaps(v, sel, i - 1) {
            up_moved(s, sel, (i - 1) as nat).insert(v[i as int])
        } else {
            up_moved(s, sel, (i - 1) as nat)
        }
    }
}

/// One step of a move down, at the pair `(i, i + 1)`: a selected element
/// passes the unselected one just after it.
pub open spec fn down_swaps(v: Seq<u128>, sel: Set<u128>, i: int) -> bool {
    sel.contains(v[i]) && !sel.contains(v[i + 1])
}

/// The order after the first `j` steps of a move down, taken from the back:
/// step `j` is at the pair `(n - 1 - j, n - j)`.
pub open spec fn down_state(s: Seq<u128>, sel: Set<u128>, j: nat) -> Seq<u128>
    decreases j,
{
    if j == 0 {
        s
    } else {
        let v = down_state(s, sel, (j - 1) as nat);
        let i = s.len() - 1 - j;
        if down_swaps(v, sel, i) {
            swapped(v, i)
        } else {
            v
        }
    }
}

pub open spec fn down_moved(s: Seq<u128>, sel: Set<u128>, j: nat) -> Set<u128>
    decreases j,
{
    if j == 0 {
        Set::empty()
    } else {
        let v = down_state(s, sel, (j - 1) as nat);
        let i = s.len() - 1 - j;
        if down_swaps(v, sel, i) {
            down_moved(s, sel, (j - 1) as nat).insert(v[i])
        } else {
            down_moved(s, sel, (j - 1) as nat)
        }
    }
}

/// The number of steps of a move over `n` elements.
pub open spec fn steps(n: nat) -> nat {
    if n == 0 {
        0
    } else {
        (n - 1) as nat
    }
}

/// The order after moving the selected elements one place in `direction`.
pub open spec fn moved_order(s: Seq<u128>, sel: Set<u128>, direction: UmlStateMachineOrdinalMovement) -> Seq<u128> {
    match direction {
        UmlStateMachineOrdinalMovement::Up => up_state(s, sel, steps(s.len())),
        UmlStateMachineOrdinalMovement::Down => down_state(s, sel, steps(s.len())),
    }
}

/// The elements that such a move moves.
pub open spec fn moved_elements(s: Seq<u128>, sel: Set<u128>, direction: UmlStateMachineOrdinalMovement) -> Set<u128> {
    match direction {
        UmlStateMachineOrdinalMovement::Up => up_moved(s, sel, steps(s.len())),
        UmlStateMachineOrdinalMovement::Down => down_moved(s, sel, steps(s.len())),
    }
}

proof fn lemma_up_state_len(s: Seq<u128>, sel: Set<u128>, i: nat)
    requires
        i <= steps(s.len()),
    ensures
        up_state(s, sel, i).len() == s.len(),
    decreases i,
{
    if i > 0 {
        lemma_up_state_len(s, sel, (i - 1) as nat);
    }
}

proof fn lemma_down_state_len(s: Seq<u128>, sel: Set<u128>, j: nat)
    requires
        j <= steps(s.len()),
    ensures
        down_state(s, sel, j).len() == s.len(),
    decreases j,
{
    if j > 0 {
        lemma_down_state_len(s, sel, (j - 1) as nat);
    }
}

fn move_up(v: &mut Vec<u128>, selected: &HashSet<u128>) -> (moved: HashSet<u128>)
    ensures
        final(v)@ == up_state(old(v)@, selected@, steps(old(v)@.len())),
        moved@ == up_moved(old(v)@, selected@, steps(old(v)@.len())),
{
    let ghost s = v@;
    let mut moved: HashSet<u128> = HashSet::new();
    if v.len() == 0 {
        return moved;
    }
    let n = v.len();
    let mut i: usize = 0;
    while i + 1 < n
        invariant
            n == s.len(),
            n > 0,
            i + 1 <= n,
            v@ == up_state(s, selected@, i as nat),
            moved@ == up_moved(s, selected@, i as nat),
        decreases n - i,
    {
        proof {
            lemma_up_state_len(s, selected@, i as nat);
        }
        let a = v[i];
        let b = v[i + 1];
        if selected.contains(&b) && !selected.contains(&a) {
            v.set(i, b);
            v.set(i + 1, a);
            moved.insert(b);
        }
        i = i + 1;
    }
    moved
}

fn move_down(v: &mut Vec<u128>, selected: &HashSet<u128>) -> (moved: HashSet<u128>)
    ensures
        final(v)@ == down_state(old(v)@, selected@, steps(old(v)@.len())),
        moved@ == down_moved(old(v)@, selected@, steps(old(v)@.len())),
{
    let ghost s = v@;
    let mut moved: HashSet<u128> = HashSet::new();
    if v.len() == 0 {
        return moved;
    }
    let n = v.len();
    let mut j: usize = 0;
    while j + 1 < n
        invariant
            n == s.len(),
            n > 0,
            j + 1 <= n,
            v@ == down_state(s, selected@, j as nat),
            moved@ == down_moved(s, selected@, j as nat),
        decreases n - j,
    {
        proof {
            lemma_down_state_len(s, selected@, j as nat);
        }
        let i = n - 2 - j;
        let a = v[i];
        let b = v[i + 1];
        if selected.contains(&a) && !selected.contains(&b) {
            v.set(i, b);
            v.set(i + 1, a);
            moved.insert(a);
        }
        j = j + 1;
        assert(i == s.len() - 1 - j);
    }
    moved
}

impl UmlStateMachineOrdinalMovement {
    /// Moves the selected elements of `order` one place in this direction:
    /// walking from the front (up) or from the back (down), each selected
    /// element passes the unselected element next to it; returns the
    /// elements that moved.
    pub fn apply_to(&self, order: &mut Vec<u128>, selected: &HashSet<u128>) -> (moved: HashSet<u128>)
        ensures
            final(order)@ == moved_order(old(order)@, selected@, *self),
            moved@ == moved_elements(old(order)@, selected@, *self),
    {
        match self {
            UmlStateMachineOrdinalMovement::Up => move_up(order, selected),
            UmlStateMachineOrdinalMovement::Down => move_down(order, selected),
        }
    }
}

// ---------------------------------------------------------------------------
// Moving back undoes a move.
// ---------------------------------------------------------------------------

/// The first `i` steps of a move up leave the positions after `i` alone.
proof fn lemma_up_untouched(s: Seq<u128>, sel: Set<u128>, i: nat)
    requires
        i <= steps(s.len()),
    ensures
        up_state(s, sel, i).len() == s.len(),
        forall|k: int| i < k < s.len() ==> #[trigger] up_state(s, sel, i)[k] == s[k],
    decreases i,
{
    lemma_up_state_len(s, sel, i);
    if i > 0 {
        lemma_up_untouched(s, sel, (i - 1) as nat);
    }
}

/// What moves in the first `i` steps of a move up: the element just after
/// each pair where a step swaps.
proof fn lemma_up_moved(s: Seq<u128>, sel: Set<u128>, i: nat, x: u128)
    requires
        i <= steps(s.len()),
    ensures
        up_moved(s, sel, i).contains(x) <==> exists|j: int|
            0 <= j < i && up_swaps(#[trigger] up_state(s, sel, j as nat), sel, j) && x == s[j + 1],
        up_moved(s, sel, i).contains(x) ==> sel.contains(x),
    decreases i,
{
    if i > 0 {
        let p = (i - 1) as nat;
        lemma_up_moved(s, sel, p, x);
        lemma_up_untouched(s, sel, p);
        let v = up_state(s, sel, p);
        if up_swaps(v, sel, p as int) && x == s[p + 1int] {
            assert(up_swaps(up_state(s, sel, p), sel, p as int));
        }
        if exists|j: int| 0 <= j < i && up_swaps(#[trigger] up_state(s, sel, j as nat), sel, j) && x == s[j + 1] {
            let j = choose|j: int| 0 <= j < i && up_swaps(#[trigger] up_state(s, sel, j as nat), sel, j) && x == s[j + 1];
            if j < p {
            } else {
                assert(j == p);
                assert(v[p + 1int] == s[p + 1int]);
            }
        }
    }
}

/// After `i` steps of a move up, the element at `i` is not one that moves.
proof fn lemma_up_current_stays(s: Seq<u128>, sel: Set<u128>, i: nat)
    requires
        s.no_duplicates(),
        i <= steps(s.len()),
        s.len() > 0,
    ensures
        !up_moved(s, sel, steps(s.len())).contains(up_state(s, sel, i)[i as int]),
{
    let n = steps(s.len());
    let x = up_state(s, sel, i)[i as int];
    lemma_up_moved(s, sel, n, x);
    lemma_up_untouched(s, sel, i);
    if up_moved(s, sel, n).contains(x) {
        let j = choose|j: int| 0 <= j < n && up_swaps(#[trigger] up_state(s, sel, j as nat), sel, j) && x == s[j + 1];
        if i == 0 {
            assert(x == s[0]);
            assert(s[0] == s[j + 1]);
        } else {
            let p = (i - 1) as nat;
            let v = up_state(s, sel, p);
            lemma_up_untouched(s, sel, p);
            if up_swaps(v, sel, p as int) {
                assert(x == v[p as int]);
                assert(!sel.contains(x));
            } else {
                assert(x == v[i as int]);
                assert(x == s[i as int]);
                assert(s[i as int] == s[j + 1]);
                assert(j + 1 == i);
                assert(j == p);
            }
        }
    }
}

/// Moving down the elements that a move up moved gives the order back, when
/// no element occurs twice.
pub proof fn law_move_down_undoes_move_up(s: Seq<u128>, sel: Set<u128>)
    requires
        s.no_duplicates(),
    ensures
        moved_order(
            moved_order(s, sel, UmlStateMachineOrdinalMovement::Up),
            moved_elements(s, sel, UmlStateMachineOrdinalMovement::Up),
            UmlStateMachineOrdinalMovement::Down,
        ) == s,
{
    if s.len() > 0 {
        let n = steps(s.len());
        let r = up_state(s, sel, n);
        let m = up_moved(s, sel, n);
        lemma_up_state_len(s, sel, n);
        lemma_down_restores(s, sel, n);
    }
}

proof fn lemma_down_restores(s: Seq<u128>, sel: Set<u128>, j: nat)
    requires
        s.no_duplicates(),
        s.len() > 0,
        j <= steps(s.len()),
    ensures
        down_state(up_state(s, sel, steps(s.len())), up_moved(s, sel, steps(s.len())), j) == up_state(
            s,
            sel,
            (steps(s.len()) - j) as nat,
        ),
    decreases j,
{
    let n = steps(s.len());
    let r = up_state(s, sel, n);
    let m = up_moved(s, sel, n);
    lemma_up_state_len(s, sel, n);
    if j > 0 {
        lemma_down_restores(s, sel, (j - 1) as nat);
        let i = n - j;
        let vi = up_state(s, sel, i as nat);
        let vn = up_state(s, sel, (i + 1) as nat);
        assert(r.len() - 1 - j == i);
        lemma_up_untouched(s, sel, i as nat);
        lemma_up_current_stays(s, sel, i as nat);
        lemma_up_moved(s, sel, n, vi[i + 1]);
        lemma_up_moved(s, sel, n, vi[i]);
        if up_swaps(vi, sel, i) {
            assert(vn == swapped(vi, i));
            assert(vn[i] == vi[i + 1]);
            assert(vi[i + 1] == s[i + 1]);
            assert(up_swaps(up_state(s, sel, i as nat), sel, i));
            assert(m.contains(vn[i]));
            assert(!m.contains(vn[i + 1]));
            assert(down_swaps(vn, m, i));
            assert(swapped(vn, i) =~= vi);
        } else {
            assert(vn == vi);
            assert(!down_swaps(vn, m, i));
        }
    }
}

/// The first `j` steps of a move down leave the positions before
/// `n - 1 - j` alone.
proof fn lemma_down_untouched(s: Seq<u128>, sel: Set<u128>, j: nat)
    requires
        j <= steps(s.len()),
    ensures
        down_state(s, sel, j).len() == s.len(),
        forall|k: int| 0 <= k < s.len() - 1 - j ==> #[trigger] down_state(s, sel, j)[k] == s[k],
    decreases j,
{
    lemma_down_state_len(s, sel, j);
    if j > 0 {
        lemma_down_untouched(s, sel, (j - 1) as nat);
    }
}

/// What moves in the first `j` steps of a move down: the element just before
/// each pair where a step swaps.
proof fn lemma_down_moved(s: Seq<u128>, sel: Set<u128>, j: nat, x: u128)
    requires
        j <= steps(s.len()),
    ensures
        down_moved(s, sel, j).contains(x) <==> exists|t: int|
            0 <= t < j && down_swaps(#[trigger] down_state(s, sel, t as nat), sel, s.len() - 2 - t) && x == s[s.len()
                - 2 - t],
        down_moved(s, sel, j).contains(x) ==> sel.contains(x),
    decreases j,
{
    if j > 0 {
        let p = (j - 1) as nat;
        lemma_down_moved(s, sel, p, x);
        lemma_down_untouched(s, sel, p);
        let v = down_state(s, sel, p);
        let i = s.len() - 1 - j;
        if down_swaps(v, sel, i) && x == s[i] {
            assert(down_swaps(down_state(s, sel, p), sel, s.len() - 2 - p));
        }
        if exists|t: int|
            0 <= t < j && down_swaps(#[trigger] down_state(s, sel, t as nat), sel, s.len() - 2 - t) && x == s[s.len() - 2
                - t] {
            let t = choose|t: int|
                0 <= t < j && down_swaps(#[trigger] down_state(s, sel, t as nat), sel, s.len() - 2 - t) && x == s[s.len()
                    - 2 - t];
            if t < p {
            } else {
                assert(t == p);
                assert(v[i] == s[i]);
            }
        }
    }
}

/// After `j` steps of a move down, the element at `n - 1 - j` is not one
/// that moves.
proof fn lemma_down_current_stays(s: Seq<u128>, sel: Set<u128>, j: nat)
    requires
        s.no_duplicates(),
        j <= steps(s.len()),
        s.len() > 0,
    ensures
        !down_moved(s, sel, steps(s.len())).contains(down_state(s, sel, j)[s.len() - 1 - j]),
{
    let n = steps(s.len());
    let c = s.len() - 1 - j;
    let x = down_state(s, sel, j)[c];
    lemma_down_moved(s, sel, n, x);
    lemma_down_untouched(s, sel, j);
    if down_moved(s, sel, n).contains(x) {
        let t = choose|t: int|
            0 <= t < n && down_swaps(#[trigger] down_state(s, sel, t as nat), sel, s.len() - 2 - t) && x == s[s.len() - 2
                - t];
        if j == 0 {
            assert(x == s[s.len() - 1]);
            assert(s[s.len() - 1] == s[s.len() - 2 - t]);
        } else {
            let p = (j - 1) as nat;
            let v = down_state(s, sel, p);
            lemma_down_untouched(s, sel, p);
            if down_swaps(v, sel, c) {
                assert(x == v[c + 1]);
                assert(!sel.contains(x));
            } else {
                assert(x == v[c]);
                assert(x == s[c]);
                assert(s[c] == s[s.len() - 2 - t]);
                assert(t == p);
            }
        }
    }
}

proof fn lemma_up_restores(s: Seq<u128>, sel: Set<u128>, k: nat)
    requires
        s.no_duplicates(),
        s.len() > 0,
        k <= steps(s.len()),
    ensures
        up_state(down_state(s, sel, steps(s.len())), down_moved(s, sel, steps(s.len())), k) == down_state(
            s,
            sel,
            (steps(s.len()) - k) as nat,
        ),
    decreases k,
{
    let n = steps(s.len());
    let r = down_state(s, sel, n);
    let m = down_moved(s, sel, n);
    lemma_down_state_len(s, sel, n);
    if k > 0 {
        lemma_up_restores(s, sel, (k - 1) as nat);
        let i = (k - 1) as int;
        let t = (n - k) as nat;
        let w = down_state(s, sel, t);
        let wn = down_state(s, sel, (t + 1) as nat);
        assert(s.len() - 1 - (t + 1) == i);
        lemma_down_untouched(s, sel, t);
        lemma_down_current_stays(s, sel, t);
        lemma_down_moved(s, sel, n, w[i]);
        lemma_down_moved(s, sel, n, w[i + 1]);
        if down_swaps(w, sel, i) {
            assert(wn == swapped(w, i));
            assert(wn[i + 1] == w[i]);
            assert(w[i] == s[i]);
            assert(down_swaps(down_state(s, sel, t), sel, s.len() - 2 - t));
            assert(m.contains(wn[i + 1]));
            assert(!m.contains(wn[i]));
            assert(up_swaps(wn, m, i));
            assert(swapped(wn, i) =~= w);
        } else {
            assert(wn == w);
            assert(!up_swaps(wn, m, i));
        }
    }
}

/// Moving up the elements that a move down moved gives the order back, when
/// no element occurs twice.
pub proof fn law_move_up_undoes_move_down(s: Seq<u128>, sel: Set<u128>)
    requires
        s.no_duplicates(),
    ensures
        moved_order(
            moved_order(s, sel, UmlStateMachineOrdinalMovement::Down),
            moved_elements(s, sel, UmlStateMachineOrdinalMovement::Down),
            UmlStateMachineOrdinalMovement::Up,
        ) == s,
{
    if s.len() > 0 {
        let n = steps(s.len());
        lemma_down_state_len(s, sel, n);
        lemma_up_restores(s, sel, n);
    }
}

} // verus!
