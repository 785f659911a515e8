//! The watched assets: their last price and a bounded history of points.
use std::collections::VecDeque;
use vstd::prelude::*;
use crate::text::{chars_of, chars_eq, chars_ends_with, copy_range, has_prefix, has_suffix, remove_all, remove_all_chars, string_from_chars};

verus! {

/// Most points kept in an asset's history.
pub const MAX_DATA_POINTS: usize = 600;

/// The quote asset every watched symbol is priced in.
pub open spec fn quote_suffix() -> Seq<char> {
    seq!['U', 'S', 'D', 'T']
}

/// The characters of `"USDT"`.
fn quote_chars() -> (v: Vec<char>)
    ensures
        v@ == quote_suffix(),
{
    let v = chars_of("USDT");
    proof {
        reveal_strlit("USDT");
    }
    assert(v@ =~= quote_suffix());
    v
}

/// `s` without its oldest element, when it has one.
pub open spec fn drop_oldest<X>(s: Seq<X>) -> Seq<X> {
    if s.len() > 0 {
        s.drop_first()
    } else {
        s
    }
}

/// A history after `x` is appended: the oldest element goes first when the
/// history already holds `MAX_DATA_POINTS` elements or more.
pub open spec fn window_push<X>(s: Seq<X>, x: X) -> Seq<X> {
    if s.len() >= MAX_DATA_POINTS {
        drop_oldest(s).push(x)
    } else {
        s.push(x)
    }
}

/// One watched asset. `P` is a chart point and `T` a wall-clock time stamp;
/// `history[i]` was taken at `timestamps[i]`.
pub struct Asset<P, T> {
    pub name: String,
    pub price: String,
    pub history: VecDeque<P>,
    pub timestamps: VecDeque<T>,
}

impl<P, T> Asset<P, T> {
    /// Points and time stamps pair up, and there are at most `MAX_DATA_POINTS`.
    pub open spec fn wf(&self) -> bool {
        &&& self.history@.len() == self.timestamps@.len()
        &&& self.history@.len() <= MAX_DATA_POINTS
    }

    /// A new asset for `symbol`: its name is the symbol with every `USDT`
    /// taken out, its price `0.00`, and it has no history yet.
    pub fn new(symbol: &str) -> (a: Self)
        ensures
            a.name@ == remove_all(symbol@, quote_suffix()),
            a.price@ == "0.00"@,
            a.history@ == Seq::<P>::empty(),
            a.timestamps@ == Seq::<T>::empty(),
            a.wf(),
    {
        let s = chars_of(symbol);
        let q = quote_chars();
        let name = remove_all_chars(s.as_slice(), q.as_slice());
        Asset {
            name: string_from_chars(name.as_slice()),
            price: String::from_str("0.00"),
            history: VecDeque::with_capacity(MAX_DATA_POINTS),
            timestamps: VecDeque::with_capacity(MAX_DATA_POINTS),
        }
    }

    /// Appends a point taken at `stamp`, first dropping the oldest point and
    /// stamp when the history is full.
    pub fn push_point(&mut self, point: P, stamp: T)
        ensures
            final(self).name == old(self).name,
            final(self).price == old(self).price,
            final(self).history@ == window_push(old(self).history@, point),
            final(self).timestamps@ == if old(self).history@.len() >= MAX_DATA_POINTS {
                drop_oldest(old(self).timestamps@).push(stamp)
            } else {
                old(self).timestamps@.push(stamp)
            },
            old(self).wf() ==> final(self).wf(),
    {
        if self.history.len() >= MAX_DATA_POINTS {
            let _ = self.history.pop_front();
            let _ = self.timestamps.pop_front();
        }
        self.history.push_back(point);
        self.timestamps.push_back(stamp);
    }

    /// Records `price` as the latest price. A price that could be read as a
    /// number comes with its chart point and time stamp in `sample`; those are
    /// appended as [`Asset::push_point`] does.
    pub fn update(&mut self, price: String, sample: Option<(P, T)>)
        ensures
            final(self).price == price,
            final(self).name == old(self).name,
            match sample {
                Some((p, t)) => {
                    &&& final(self).history@ == window_push(old(self).history@, p)
                    &&& final(self).timestamps@ == if old(self).history@.len() >= MAX_DATA_POINTS {
                        drop_oldest(old(self).timestamps@).push(t)
                    } else {
                        old(self).timestamps@.push(t)
                    }
                },
                None => {
                    &&& final(self).history@ == old(self).history@
                    &&& final(self).timestamps@ == old(self).timestamps@
                },
            },
            old(self).wf() ==> final(self).wf(),
    {
        self.price = price;
        if let Some((p, t)) = sample {
            self.push_point(p, t);
        }
    }

    /// The trading symbol: the name followed by `USDT`.
    pub fn symbol(&self) -> (s: String)
        ensures
            s@ == self.name@ + quote_suffix(),
    {
        let mut s = self.name.clone();
        s.append("USDT");
        proof {
            reveal_strlit("USDT");
        }
        assert("USDT"@ =~= quote_suffix());
        s
    }

    /// Whether this asset trades as `symbol`.
    pub fn has_symbol(&self, symbol: &str) -> (r: bool)
        ensures
            r == (self.name@ + quote_suffix() == symbol@),
    {
        let s = chars_of(symbol);
        let q = quote_chars();
        let n = chars_of(self.name.as_str());
        if !chars_ends_with(s.as_slice(), q.as_slice()) {
            assert(!has_suffix(symbol@, quote_suffix()));
            assert((self.name@ + quote_suffix()).skip(self.name@.len() as int) =~= quote_suffix());
            return false;
        }
        let base = copy_range(s.as_slice(), 0, s.len() - q.len());
        let r = chars_eq(base.as_slice(), n.as_slice());
        if r {
            assert(self.name@ + quote_suffix() =~= symbol@);
        } else {
            assert((self.name@ + quote_suffix()).take(self.name@.len() as int) =~= self.name@);
        }
        r
    }
}

/// All watched assets, with the candle interval and look-back they were loaded with.
pub struct App<P, T> {
    pub assets: Vec<Asset<P, T>>,
    pub interval: String,
    pub lookback_points: usize,
}

impl<P, T> App<P, T> {
    /// The first asset that trades as `symbol`.
    pub fn find_asset(&self, symbol: &str) -> (r: Option<usize>)
        ensures
            match r {
                Some(i) => {
                    &&& i < self.assets@.len()
                    &&& self.assets@[i as int].name@ + quote_suffix() == symbol@
                    &&& forall|j: int|
                        0 <= j < i ==> #[trigger] self.assets@[j].name@ + quote_suffix() != symbol@
                },
                None => forall|j: int|
                    0 <= j < self.assets@.len() ==> #[trigger] self.assets@[j].name@ + quote_suffix()
                        != symbol@,
            },
    {
        let mut i: usize = 0;
        while i < self.assets.len()
            invariant
                i <= self.assets@.len(),
                forall|j: int| 0 <= j < i ==> #[trigger] self.assets@[j].name@ + quote_suffix() != symbol@,
            decreases self.assets@.len() - i,
        {
            if self.assets[i].has_symbol(symbol) {
                return Some(i);
            }
            i = i + 1;
        }
        None
    }
}

} // verus!

verus! {

/// A history after each of `xs` is appended in turn by [`window_push`].
pub open spec fn push_all<X>(s: Seq<X>, xs: Seq<X>) -> Seq<X>
    decreases xs.len(),
{
    if xs.len() == 0 {
        s
    } else {
        push_all(window_push(s, xs[0]), xs.drop_first())
    }
}

/// The last `MAX_DATA_POINTS` elements of `s` (all of them when there are fewer).
pub open spec fn latest<X>(s: Seq<X>) -> Seq<X> {
    if s.len() > MAX_DATA_POINTS {
        s.skip(s.len() - MAX_DATA_POINTS)
    } else {
        s
    }
}

/// A history that is not over-full keeps, whatever points are appended to it
/// one by one, exactly the most recent `MAX_DATA_POINTS` of its points and
/// the new ones, oldest first.
pub proof fn lemma_history_keeps_latest<X>(s: Seq<X>, xs: Seq<X>)
    requires
        s.len() <= MAX_DATA_POINTS,
    ensures
        push_all(s, xs) == latest(s + xs),
    decreases xs.len(),
{
    if xs.len() == 0 {
        assert(s + xs =~= s);
    } else {
        let x = xs[0];
        let s1 = window_push(s, x);
        lemma_history_keeps_latest(s1, xs.drop_first());
        if s.len() == MAX_DATA_POINTS {
            assert(s1 =~= (s.push(x)).skip(1));
            assert((s.push(x)).skip(1) + xs.drop_first() =~= (s + xs).skip(1));
            assert(latest((s + xs).skip(1)) =~= latest(s + xs));
        } else {
            assert(s1 + xs.drop_first() =~= s + xs);
        }
    }
}

/// Whether `pat` occurs anywhere in `s`.
pub open spec fn occurs_in(pat: Seq<char>, s: Seq<char>) -> bool {
    exists|i: int| 0 <= i <= s.len() && has_prefix(#[trigger] s.skip(i), pat)
}

/// A symbol whose base holds no `USDT` names an asset whose name is that
/// base, so the asset trades as the symbol again.
pub proof fn lemma_quote_removed(base: Seq<char>)
    requires
        !occurs_in(quote_suffix(), base),
    ensures
        remove_all(base + quote_suffix(), quote_suffix()) == base,
        remove_all(base + quote_suffix(), quote_suffix()) + quote_suffix() == base + quote_suffix(),
    decreases base.len(),
{
    let q = quote_suffix();
    let s = base + q;
    if base.len() == 0 {
        assert(s =~= q);
        assert(s.take(4) =~= q);
        assert(s.skip(4) =~= Seq::<char>::empty());
        assert(q.len() == 4);
        assert(remove_all(s, q) == remove_all(s.skip(4), q));
        assert(remove_all(s.skip(4), q) == s.skip(4));
        assert(base =~= Seq::<char>::empty());
    } else {
        assert(s.skip(0) =~= s);
        if base.len() >= 4 {
            assert(s.take(4) =~= base.skip(0).take(4));
            assert(!has_prefix(base.skip(0), q));
        } else {
            assert(s.take(4) != q) by {
                if s.take(4) =~= q {
                    assert(s[0] == base[0]);
                    if base.len() == 1 {
                        assert(s[1] == q[0]);
                    } else if base.len() == 2 {
                        assert(s[2] == q[0]);
                    } else {
                        assert(s[3] == q[0]);
                    }
                }
            }
        }
        let rest = base.drop_first();
        assert(!occurs_in(q, rest)) by {
            if occurs_in(q, rest) {
                let i = choose|i: int| 0 <= i <= rest.len() && has_prefix(#[trigger] rest.skip(i), q);
                assert(rest.skip(i) =~= base.skip(i + 1));
            }
        }
        lemma_quote_removed(rest);
        assert(s.drop_first() =~= rest + q);
        assert(remove_all(s, q) == seq![s[0]] + remove_all(s.drop_first(), q));
        assert(seq![s[0]] + rest =~= base);
    }
}

} // verus!

verus! {

/// Preloading at most `MAX_DATA_POINTS` candles (the most `--lookback`
/// allows) into a new asset keeps every one of them, in order.
pub proof fn lemma_preload_keeps_all<X>(xs: Seq<X>)
    requires
        xs.len() <= MAX_DATA_POINTS,
    ensures
        push_all(Seq::<X>::empty(), xs) == xs,
{
    lemma_history_keeps_latest(Seq::<X>::empty(), xs);
    assert(Seq::<X>::empty() + xs =~= xs);
}

} // verus!
