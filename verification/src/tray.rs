//! The tray of cakes. The front of the tray is the cake that is cut into
//! portions; whole cakes are taken from the back.

use std::collections::VecDeque;
use vstd::prelude::*;

verus! {

/// Portions in a freshly baked cake.
pub const PORTIONS_PER_CAKE: usize = 6;

/// Cakes on the tray when the bakery opens.
pub const OPENING_CAKES: usize = 20;

/// Cakes added to the tray when the afternoon starts.
pub const AFTERNOON_CAKES: usize = 50;

/// Sum of the portions of the cakes in `s`.
pub open spec fn portions_total(s: Seq<usize>) -> int
    decreases s.len(),
{
    if s.len() == 0 {
        0
    } else {
        portions_total(s.drop_last()) + s.last()
    }
}

/// A tray whose cakes all hold between one and six portions, and where
/// only the front cake may have been cut.
pub open spec fn well_formed_tray(s: Seq<usize>) -> bool {
    &&& forall|i: int| 0 <= i < s.len() ==> 1 <= #[trigger] s[i] <= PORTIONS_PER_CAKE
    &&& forall|i: int| 1 <= i < s.len() ==> #[trigger] s[i] == PORTIONS_PER_CAKE
}

/// The portions a worker counts on before serving: those of the last three
/// cakes on the tray, or of every cake when fewer than three are left.
pub open spec fn available_spec(s: Seq<usize>) -> int {
    if s.len() >= 3 {
        s[s.len() - 1] + s[s.len() - 2] + s[s.len() - 3]
    } else {
        portions_total(s)
    }
}

/// Takes `n` portions from the front of the tray, removing each cake that
/// is used up and cutting the one where the order ends.
pub open spec fn cut_from_front(s: Seq<usize>, n: int) -> Seq<usize>
    decreases s.len(),
{
    if n <= 0 || s.len() == 0 {
        s
    } else if s[0] <= n {
        cut_from_front(s.drop_first(), n - s[0])
    } else {
        s.update(0, (s[0] - n) as usize)
    }
}

/// The tray after an order of `ordered` portions is served: one whole cake
/// from the back for every six portions, the rest cut from the front.
pub open spec fn served_tray(s: Seq<usize>, ordered: int) -> Seq<usize> {
    cut_from_front(s.take(s.len() - ordered / 6), ordered % 6)
}

/// The tray that holds `n` fresh cakes.
pub open spec fn fresh_cakes(n: nat) -> Seq<usize> {
    Seq::new(n, |i: int| PORTIONS_PER_CAKE)
}

/// What a serving attempt did to the tray.
pub enum Serving {
    /// Fewer portions were available than ordered; the tray is untouched.
    Refused { available: usize },
    /// The order was served; `previous_front` is the front cake once the
    /// whole cakes were taken, if any cake was left.
    Served { previous_front: Option<usize> },
}

pub struct CakeTray {
    cakes: VecDeque<usize>,
}

impl View for CakeTray {
    type V = Seq<usize>;

    closed spec fn view(&self) -> Seq<usize> {
        self.cakes@
    }
}

pub proof fn lemma_total_push(s: Seq<usize>, x: usize)
    ensures
        portions_total(s.push(x)) == portions_total(s) + x,
{
    assert(s.push(x).drop_last() =~= s);
}

pub proof fn lemma_total_nonneg(s: Seq<usize>)
    ensures
        portions_total(s) >= 0,
    decreases s.len(),
{
    if s.len() > 0 {
        lemma_total_nonneg(s.drop_last());
    }
}

pub proof fn lemma_total_front(s: Seq<usize>)
    requires
        s.len() > 0,
    ensures
        portions_total(s) == s[0] + portions_total(s.drop_first()),
    decreases s.len(),
{
    if s.len() > 1 {
        let d = s.drop_last();
        let f = s.drop_first();
        lemma_total_front(d);
        assert(d.drop_first() =~= f.drop_last());
        assert(f.last() == s.last());
        assert(d[0] == s[0]);
        assert(portions_total(f) == portions_total(f.drop_last()) + f.last());
    } else {
        assert(s.drop_first().len() == 0);
        assert(s.drop_last().len() == 0);
        assert(s.last() == s[0]);
        assert(portions_total(s) == portions_total(s.drop_last()) + s.last());
    }
}

/// A well-formed tray holds at most six portions per cake.
pub proof fn lemma_total_at_most_six_each(s: Seq<usize>)
    requires
        well_formed_tray(s),
    ensures
        0 <= portions_total(s) <= 6 * s.len(),
    decreases s.len(),
{
    if s.len() > 0 {
        assert(well_formed_tray(s.drop_last()));
        lemma_total_at_most_six_each(s.drop_last());
    }
}

/// The available portions never exceed what is on the tray.
pub proof fn lemma_available_within_total(s: Seq<usize>)
    ensures
        available_spec(s) <= portions_total(s),
{
    let n = s.len() as int;
    if n >= 3 {
        let a = s.drop_last();
        let b = a.drop_last();
        let c = b.drop_last();
        assert(a.last() == s[n - 2]);
        assert(b.last() == s[n - 3]);
        lemma_total_nonneg(c);
        assert(portions_total(s) == portions_total(a) + s[n - 1]);
        assert(portions_total(a) == portions_total(b) + s[n - 2]);
        assert(portions_total(b) == portions_total(c) + s[n - 3]);
    }
}

/// An empty tray holds no portions.
pub proof fn lemma_total_empty()
    ensures
        portions_total(Seq::<usize>::empty()) == 0,
{
}

/// Changing the portions of one cake changes the total by the difference.
pub proof fn lemma_total_update(s: Seq<usize>, i: int, v: usize)
    requires
        0 <= i < s.len(),
    ensures
        portions_total(s.update(i, v)) == portions_total(s) - s[i] + v,
    decreases s.len(),
{
    let u = s.update(i, v);
    if i == s.len() - 1 {
        assert(u.drop_last() =~= s.drop_last());
    } else {
        lemma_total_update(s.drop_last(), i, v);
        assert(u.drop_last() =~= s.drop_last().update(i, v));
    }
}

/// Law of the available portions: on a well-formed tray a worker counts on
/// every portion up to eighteen (three whole cakes), and no more.
pub proof fn lemma_available_is_capped_total(s: Seq<usize>)
    requires
        well_formed_tray(s),
    ensures
        available_spec(s) == if portions_total(s) < 18 {
            portions_total(s)
        } else {
            18
        },
{
    let n = s.len() as int;
    lemma_total_at_most_six_each(s);
    if n >= 3 {
        let a = s.drop_last();
        let b = a.drop_last();
        let c = b.drop_last();
        assert(a.last() == s[n - 2]);
        assert(b.last() == s[n - 3]);
        assert(portions_total(s) == portions_total(a) + s[n - 1]);
        assert(portions_total(a) == portions_total(b) + s[n - 2]);
        assert(portions_total(b) == portions_total(c) + s[n - 3]);
        if n == 3 {
            assert(c.len() == 0);
        } else {
            assert(s[n - 1] == 6 && s[n - 2] == 6 && s[n - 3] == 6);
            lemma_total_front(c);
            lemma_total_nonneg(c.drop_first());
            assert(c[0] == s[0]);
        }
    }
}

/// Fresh cakes put behind a tray add six portions each.
pub proof fn lemma_total_with_fresh(s: Seq<usize>, n: nat)
    ensures
        portions_total(s + fresh_cakes(n)) == portions_total(s) + 6 * n,
    decreases n,
{
    if n > 0 {
        lemma_total_with_fresh(s, (n - 1) as nat);
        assert((s + fresh_cakes(n)).drop_last() =~= s + fresh_cakes((n - 1) as nat));
    } else {
        assert(s + fresh_cakes(0) =~= s);
    }
}

pub proof fn lemma_total_prefix_le(s: Seq<usize>, k: int)
    requires
        0 <= k <= s.len(),
    ensures
        portions_total(s.take(k)) <= portions_total(s),
    decreases s.len(),
{
    if k < s.len() {
        lemma_total_prefix_le(s.drop_last(), k);
        assert(s.drop_last().take(k) =~= s.take(k));
    } else {
        assert(s.take(k) =~= s);
    }
}

/// Dropping `k` cakes from the back of a well-formed tray, none of them the
/// front one, removes exactly `6 * k` portions.
pub proof fn lemma_total_drop_back(s: Seq<usize>, k: int)
    requires
        well_formed_tray(s),
        0 <= k < s.len(),
    ensures
        portions_total(s.take(s.len() - k)) == portions_total(s) - 6 * k,
        well_formed_tray(s.take(s.len() - k)),
    decreases k,
{
    if k > 0 {
        let t = s.drop_last();
        assert(well_formed_tray(t));
        lemma_total_drop_back(t, k - 1);
        assert(t.take(t.len() - (k - 1)) =~= s.take(s.len() - k));
    } else {
        assert(s.take(s.len() as int) =~= s);
    }
}

/// Cutting `n` portions from the front of a well-formed tray that holds at
/// least `n` portions keeps it well formed and removes exactly `n` portions.
pub proof fn lemma_cut_from_front(s: Seq<usize>, n: int)
    requires
        well_formed_tray(s),
        0 <= n <= portions_total(s),
    ensures
        well_formed_tray(cut_from_front(s, n)),
        portions_total(cut_from_front(s, n)) == portions_total(s) - n,
    decreases s.len(),
{
    if n > 0 && s.len() > 0 {
        lemma_total_front(s);
        if s[0] <= n {
            let t = s.drop_first();
            assert(well_formed_tray(t));
            lemma_cut_from_front(t, n - s[0]);
        } else {
            let u = s.update(0, (s[0] - n) as usize);
            assert(well_formed_tray(u));
            lemma_total_front(u);
            assert(u.drop_first() =~= s.drop_first());
        }
    } else if n > 0 {
        assert(portions_total(s) == 0);
    }
}

/// Law of serving: on a well-formed tray from which the available portions
/// cover the order, serving keeps the tray well formed and removes exactly
/// the ordered portions.
pub proof fn lemma_serving_removes_exactly_the_order(s: Seq<usize>, ordered: int)
    requires
        well_formed_tray(s),
        0 <= ordered <= available_spec(s),
    ensures
        ordered / 6 <= s.len(),
        ordered / 6 == s.len() ==> ordered % 6 == 0,
        well_formed_tray(s.take(s.len() - ordered / 6)),
        ordered % 6 <= portions_total(s.take(s.len() - ordered / 6)),
        well_formed_tray(served_tray(s, ordered)),
        portions_total(served_tray(s, ordered)) == portions_total(s) - ordered,
{
    let n = s.len() as int;
    let full = ordered / 6;
    let rest = ordered % 6;
    lemma_available_within_total(s);
    lemma_total_at_most_six_each(s);
    assert(ordered == 6 * full + rest);
    assert(full <= n);
    if full == n {
        assert(rest == 0);
        assert(s.take(0) =~= Seq::<usize>::empty());
        assert(portions_total(s) == ordered);
    } else {
        lemma_total_drop_back(s, full);
        lemma_cut_from_front(s.take(n - full), rest);
    }
}

/// The portions counted on before serving, on a well-formed tray.
fn available_in(cakes: &VecDeque<usize>) -> (a: usize)
    requires
        well_formed_tray(cakes@),
    ensures
        a == available_spec(cakes@),
{
    let n = cakes.len();
    if n >= 3 {
        cakes[n - 1] + cakes[n - 2] + cakes[n - 3]
    } else {
        let mut sum: usize = 0;
        let mut i: usize = 0;
        while i < n
            invariant
                n == cakes@.len(),
                n < 3,
                i <= n,
                well_formed_tray(cakes@),
                sum == portions_total(cakes@.take(i as int)),
                sum <= 6 * i,
            decreases n - i,
        {
            proof {
                lemma_total_push(cakes@.take(i as int), cakes@[i as int]);
                assert(cakes@.take(i as int).push(cakes@[i as int]) =~= cakes@.take(i + 1));
            }
            sum = sum + cakes[i];
            i = i + 1;
        }
        assert(cakes@.take(n as int) =~= cakes@);
        sum
    }
}

/// Serves an order from a well-formed tray; see `CakeTray::serve_order`.
fn serve_from(cakes: &mut VecDeque<usize>, ordered: usize) -> (r: Serving)
    requires
        well_formed_tray(old(cakes)@),
    ensures
        well_formed_tray(final(cakes)@),
        available_spec(old(cakes)@) < ordered ==> {
            &&& r == Serving::Refused { available: available_spec(old(cakes)@) as usize }
            &&& final(cakes)@ == old(cakes)@
        },
        available_spec(old(cakes)@) >= ordered ==> {
            &&& final(cakes)@ == served_tray(old(cakes)@, ordered as int)
            &&& portions_total(final(cakes)@) == portions_total(old(cakes)@) - ordered
            &&& r == Serving::Served {
                previous_front: if old(cakes)@.len() > ordered / 6 {
                    Some(old(cakes)@[0])
                } else {
                    None::<usize>
                },
            }
        },
{
    let available = available_in(cakes);
    if available < ordered {
        return Serving::Refused { available };
    }
    proof {
        lemma_serving_removes_exactly_the_order(cakes@, ordered as int);
    }
    let ghost start = cakes@;
    let full_cakes = ordered / 6;
    let mut individual_portions = ordered % 6;
    let mut left = full_cakes;
    while left > 0
        invariant
            left <= full_cakes,
            full_cakes <= start.len(),
            cakes@ == start.take(start.len() - (full_cakes - left)),
        decreases left,
    {
        cakes.pop_back();
        left = left - 1;
        assert(cakes@ =~= start.take(start.len() - (full_cakes - left)));
    }
    let ghost kept = cakes@;
    let previous_front = if cakes.len() > 0 {
        Some(cakes[0])
    } else {
        None
    };
    if previous_front.is_some() {
        while individual_portions > 0
            invariant
                cut_from_front(cakes@, individual_portions as int) == cut_from_front(
                    kept,
                    (ordered % 6) as int,
                ),
                well_formed_tray(cakes@),
                individual_portions <= portions_total(cakes@),
            decreases individual_portions,
        {
            let ghost before = cakes@;
            proof {
                lemma_total_front(before);
                lemma_total_nonneg(before.drop_first());
            }
            let cake = cakes.pop_front().unwrap();
            assert(cakes@ =~= before.drop_first());
            if cake <= individual_portions {
                individual_portions = individual_portions - cake;
            } else {
                cakes.push_front(cake - individual_portions);
                assert(cakes@ =~= before.update(0, (cake - individual_portions) as usize));
                individual_portions = 0;
                proof {
                    lemma_total_nonneg(cakes@);
                }
            }
        }
    } else {
        assert(kept.len() == 0);
    }
    Serving::Served { previous_front }
}

/// `n` fresh cakes behind the cakes of `cakes`.
fn push_fresh(cakes: &mut VecDeque<usize>, n: usize)
    ensures
        final(cakes)@ == old(cakes)@ + fresh_cakes(n as nat),
{
    let ghost start = cakes@;
    let mut i: usize = 0;
    while i < n
        invariant
            i <= n,
            cakes@ == start + fresh_cakes(i as nat),
        decreases n - i,
    {
        cakes.push_back(PORTIONS_PER_CAKE);
        i = i + 1;
        assert(cakes@ =~= start + fresh_cakes(i as nat));
    }
}

pub proof fn lemma_fresh_behind_well_formed(s: Seq<usize>, n: nat)
    requires
        well_formed_tray(s),
    ensures
        well_formed_tray(s + fresh_cakes(n)),
{
    let t = s + fresh_cakes(n);
    assert forall|i: int| 0 <= i < t.len() implies 1 <= #[trigger] t[i] <= PORTIONS_PER_CAKE by {
        if i >= s.len() {
            assert(t[i] == fresh_cakes(n)[i - s.len()]);
        }
    }
    assert forall|i: int| 1 <= i < t.len() implies #[trigger] t[i] == PORTIONS_PER_CAKE by {
        if i >= s.len() {
            assert(t[i] == fresh_cakes(n)[i - s.len()]);
        }
    }
}

/// A non-empty well-formed tray holds its front cake and six portions for
/// every other cake.
pub proof fn lemma_total_of_well_formed(s: Seq<usize>)
    requires
        well_formed_tray(s),
        s.len() > 0,
    ensures
        portions_total(s) == s[0] + 6 * (s.len() - 1),
    decreases s.len(),
{
    if s.len() > 1 {
        let d = s.drop_last();
        assert(well_formed_tray(d));
        lemma_total_of_well_formed(d);
        assert(s.last() == 6);
        assert(d[0] == s[0]);
        assert(portions_total(s) == portions_total(d) + s.last());
    } else {
        assert(s.drop_last().len() == 0);
        assert(portions_total(s) == portions_total(s.drop_last()) + s.last());
        assert(s.last() == s[0]);
    }
}

/// A well-formed tray is determined by the portions it holds.
pub proof fn lemma_well_formed_tray_determined_by_total(s: Seq<usize>, t: Seq<usize>)
    requires
        well_formed_tray(s),
        well_formed_tray(t),
        portions_total(s) == portions_total(t),
    ensures
        s == t,
{
    lemma_total_at_most_six_each(s);
    lemma_total_at_most_six_each(t);
    if s.len() > 0 {
        lemma_total_of_well_formed(s);
    }
    if t.len() > 0 {
        lemma_total_of_well_formed(t);
    }
    if s.len() > 0 && t.len() > 0 {
        assert(s.len() == t.len());
        assert(s[0] == t[0]);
        assert forall|i: int| 0 <= i < s.len() implies s[i] == t[i] by {
            if i > 0 {
                assert(s[i] == 6 && t[i] == 6);
            }
        }
    }
    assert(s =~= t);
}

/// Law of serving: the tray left after a served order is the one
/// well-formed tray that holds exactly the portions that were not ordered.
pub proof fn lemma_served_tray_is_the_tray_with_the_rest(s: Seq<usize>, ordered: int, t: Seq<usize>)
    requires
        well_formed_tray(s),
        0 <= ordered <= available_spec(s),
        well_formed_tray(t),
        portions_total(t) == portions_total(s) - ordered,
    ensures
        served_tray(s, ordered) == t,
{
    lemma_serving_removes_exactly_the_order(s, ordered);
    lemma_well_formed_tray_determined_by_total(served_tray(s, ordered), t);
}

impl CakeTray {
    #[verifier::type_invariant]
    spec fn tray_invariant(self) -> bool {
        well_formed_tray(self.cakes@)
    }

    /// The tray is well formed: every cake holds one to six portions and
    /// only the front one may have been cut. Every tray is; each operation
    /// states it of the tray it leaves.
    pub open spec fn wf(&self) -> bool {
        well_formed_tray(self@)
    }

    /// An empty tray.
    pub fn new() -> (tray: CakeTray)
        ensures
            tray@ == Seq::<usize>::empty(),
            tray.wf(),
    {
        CakeTray { cakes: VecDeque::new() }
    }

    /// The tray the bakery opens with: twenty fresh cakes.
    pub fn opening_stock() -> (tray: CakeTray)
        ensures
            tray@ == fresh_cakes(OPENING_CAKES as nat),
            portions_total(tray@) == PORTIONS_PER_CAKE * OPENING_CAKES,
            tray.wf(),
    {
        proof {
            lemma_total_with_fresh(Seq::<usize>::empty(), OPENING_CAKES as nat);
            assert(Seq::<usize>::empty() + fresh_cakes(OPENING_CAKES as nat) =~= fresh_cakes(
                OPENING_CAKES as nat,
            ));
        }
        let mut cakes: VecDeque<usize> = VecDeque::with_capacity(100);
        push_fresh(&mut cakes, OPENING_CAKES);
        assert(cakes@ =~= fresh_cakes(OPENING_CAKES as nat));
        CakeTray { cakes }
    }

    /// Number of cakes on the tray.
    pub fn len(&self) -> (n: usize)
        ensures
            n == self@.len(),
    {
        self.cakes.len()
    }

    /// Portions left in the front cake, if there is one.
    pub fn front(&self) -> (c: Option<usize>)
        ensures
            c == (if self@.len() > 0 { Some(self@[0]) } else { None::<usize> }),
    {
        if self.cakes.len() > 0 {
            Some(self.cakes[0])
        } else {
            None
        }
    }

    /// Puts a freshly baked cake at the back of the tray.
    pub fn bake_cake(&mut self)
        ensures
            final(self)@ == old(self)@.push(PORTIONS_PER_CAKE),
            portions_total(final(self)@) == portions_total(old(self)@) + PORTIONS_PER_CAKE,
            final(self).wf(),
    {
        proof {
            use_type_invariant(&*self);
        }
        let mut cakes: VecDeque<usize> = VecDeque::new();
        std::mem::swap(&mut cakes, &mut self.cakes);
        let ghost start = cakes@;
        cakes.push_back(PORTIONS_PER_CAKE);
        proof {
            lemma_total_push(start, PORTIONS_PER_CAKE);
        }
        proof {
            lemma_fresh_behind_well_formed(start, 1);
            assert(cakes@ =~= start + fresh_cakes(1));
        }
        self.cakes = cakes;
    }

    /// Puts the afternoon's fifty cakes behind what is left from the morning.
    pub fn add_afternoon_cakes(&mut self)
        ensures
            final(self)@ == old(self)@ + fresh_cakes(AFTERNOON_CAKES as nat),
            portions_total(final(self)@) == portions_total(old(self)@)
                + PORTIONS_PER_CAKE * AFTERNOON_CAKES,
            final(self).wf(),
    {
        proof {
            lemma_total_with_fresh(self@, AFTERNOON_CAKES as nat);
        }
        proof {
            use_type_invariant(&*self);
        }
        let mut cakes: VecDeque<usize> = VecDeque::new();
        std::mem::swap(&mut cakes, &mut self.cakes);
        let ghost start = cakes@;
        push_fresh(&mut cakes, AFTERNOON_CAKES);
        proof {
            lemma_fresh_behind_well_formed(start, AFTERNOON_CAKES as nat);
        }
        self.cakes = cakes;
    }

    /// Replaces whatever is on the tray by fifty fresh cakes.
    pub fn restock_afternoon(&mut self)
        ensures
            final(self)@ == fresh_cakes(AFTERNOON_CAKES as nat),
            portions_total(final(self)@) == PORTIONS_PER_CAKE * AFTERNOON_CAKES,
            final(self).wf(),
    {
        proof {
            lemma_total_with_fresh(Seq::<usize>::empty(), AFTERNOON_CAKES as nat);
            assert(Seq::<usize>::empty() + fresh_cakes(AFTERNOON_CAKES as nat) =~= fresh_cakes(
                AFTERNOON_CAKES as nat,
            ));
        }
        let mut cakes: VecDeque<usize> = VecDeque::new();
        push_fresh(&mut cakes, AFTERNOON_CAKES);
        assert(cakes@ =~= fresh_cakes(AFTERNOON_CAKES as nat));
        self.cakes = cakes;
    }

    /// The portions a worker counts on: those of the last three cakes, or of
    /// every cake when fewer than three are left.
    pub fn available_portions(&self) -> (a: usize)
        ensures
            a == available_spec(self@),
            a == if portions_total(self@) < 18 {
                portions_total(self@)
            } else {
                18
            },
    {
        proof {
            use_type_invariant(self);
            lemma_available_is_capped_total(self@);
        }
        available_in(&self.cakes)
    }

    /// Every portion on the tray, or `None` where the sum does not fit in a
    /// `usize`.
    pub fn total_portions(&self) -> (t: Option<usize>)
        ensures
            match t {
                Some(v) => v == portions_total(self@),
                None => portions_total(self@) > usize::MAX,
            },
    {
        let n = self.cakes.len();
        let mut sum: usize = 0;
        let mut i: usize = 0;
        while i < n
            invariant
                n == self@.len(),
                i <= n,
                sum == portions_total(self@.take(i as int)),
            decreases n - i,
        {
            proof {
                lemma_total_push(self@.take(i as int), self@[i as int]);
                assert(self@.take(i as int).push(self@[i as int]) =~= self@.take(i + 1));
            }
            let c = self.cakes[i];
            if sum > usize::MAX - c {
                proof {
                    lemma_total_prefix_le(self@, i as int + 1);
                }
                return None;
            }
            sum = sum + c;
            i = i + 1;
        }
        assert(self@.take(n as int) =~= self@);
        Some(sum)
    }

    /// Serves an order of `ordered` portions if the available portions
    /// cover it: one whole cake from the back for every six portions, then
    /// the remaining portions cut from the front. Otherwise the tray is left
    /// as it was.
    pub fn serve_order(&mut self, ordered: usize) -> (r: Serving)
        ensures
            final(self).wf(),
            available_spec(old(self)@) < ordered ==> {
                &&& r == Serving::Refused { available: available_spec(old(self)@) as usize }
                &&& final(self)@ == old(self)@
            },
            available_spec(old(self)@) >= ordered ==> {
                &&& final(self)@ == served_tray(old(self)@, ordered as int)
                &&& portions_total(final(self)@) == portions_total(old(self)@) - ordered
                &&& r == Serving::Served {
                    previous_front: if old(self)@.len() > ordered / 6 {
                        Some(old(self)@[0])
                    } else {
                        None::<usize>
                    },
                }
            },
    {
        proof {
            use_type_invariant(&*self);
        }
        let mut cakes: VecDeque<usize> = VecDeque::new();
        std::mem::swap(&mut cakes, &mut self.cakes);
        let r = serve_from(&mut cakes, ordered);
        self.cakes = cakes;
        r
    }
}

} // verus!
