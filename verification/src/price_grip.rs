use vstd::prelude::*;

verus! {

use vstd::utf8::encode_utf8;
use crate::amount::{Amount, AmountV, Currency};
use crate::decimal::{dec_mul, Decimal};
use crate::error::LedgerError;

/// One observed exchange rate: `base -> quote` at `rate`, as of `date`.
#[derive(Clone, Debug, PartialEq)]
pub struct PriceObs {
    pub date: u64,
    pub base: Currency,
    pub quote: Currency,
    pub rate: Decimal,
}

pub struct PriceObsV {
    pub date: int,
    pub base: Seq<char>,
    pub quote: Seq<char>,
    pub rate: int,
}

impl View for PriceObs {
    type V = PriceObsV;

    open spec fn view(&self) -> PriceObsV {
        PriceObsV {
            date: self.date as int,
            base: self.base@,
            quote: self.quote@,
            rate: self.rate@,
        }
    }
}

/// The observation the grip picks for `base -> quote` as of `d`: the
/// one with the latest observation date not after `d`; among equal
/// dates the one inserted last wins.
pub open spec fn grip_best(s: Seq<PriceObsV>, d: int, b: Seq<char>, q: Seq<char>) -> Option<
    PriceObsV,
>
    decreases s.len(),
{
    if s.len() == 0 {
        None
    } else {
        let rest = grip_best(s.drop_last(), d, b, q);
        let o = s.last();
        if o.base == b && o.quote == q && o.date <= d {
            match rest {
                None => Some(o),
                Some(prev) => if o.date >= prev.date {
                    Some(o)
                } else {
                    Some(prev)
                },
            }
        } else {
            rest
        }
    }
}

/// Byte-wise lexicographic order.
pub open spec fn bytes_lt(a: Seq<u8>, b: Seq<u8>) -> bool
    decreases a.len(),
{
    if b.len() == 0 {
        false
    } else if a.len() == 0 {
        true
    } else if a[0] < b[0] {
        true
    } else if a[0] > b[0] {
        false
    } else {
        bytes_lt(a.drop_first(), b.drop_first())
    }
}

/// Lexicographic order of strings, over their UTF-8 encodings.
pub open spec fn str_lt(a: Seq<char>, b: Seq<char>) -> bool {
    bytes_lt(encode_utf8(a), encode_utf8(b))
}

/// The intermediate commodity the grip routes through when no direct
/// edge exists: among the quotes of edges leaving `b` as of `d` that
/// reach `q`, the lexicographically least (earliest inserted on ties).
pub open spec fn hop_scan(
    full: Seq<PriceObsV>,
    s: Seq<PriceObsV>,
    d: int,
    b: Seq<char>,
    q: Seq<char>,
) -> Option<Seq<char>>
    decreases s.len(),
{
    if s.len() == 0 {
        None
    } else {
        let rest = hop_scan(full, s.drop_last(), d, b, q);
        let o = s.last();
        if o.base == b && o.date <= d && grip_best(full, d, o.quote, q).is_some() {
            match rest {
                None => Some(o.quote),
                Some(m) => if str_lt(o.quote, m) {
                    Some(o.quote)
                } else {
                    Some(m)
                },
            }
        } else {
            rest
        }
    }
}

/// What `convert` yields: `None` stands for "no price available".
pub open spec fn convert_spec(s: Seq<PriceObsV>, d: int, a: AmountV, t: Seq<char>) -> Option<
    AmountV,
> {
    if a.currency == t {
        Some(a)
    } else if grip_best(s, d, a.currency, t).is_some() {
        Some(
            AmountV {
                number: dec_mul(a.number, grip_best(s, d, a.currency, t).unwrap().rate),
                currency: t,
            },
        )
    } else {
        match hop_scan(s, s, d, a.currency, t) {
            Some(m) => Some(
                AmountV {
                    number: dec_mul(
                        dec_mul(a.number, grip_best(s, d, a.currency, m).unwrap().rate),
                        grip_best(s, d, m, t).unwrap().rate,
                    ),
                    currency: t,
                },
            ),
            None => None,
        }
    }
}

/// The saturated total of converting the first `n` holdings
/// `(ks[i], vs[i])` into commodity `c` as of `date`; `None` as soon
/// as one conversion has no price.
pub open spec fn total_in_fold(
    obs: Seq<PriceObsV>,
    ks: Seq<Seq<char>>,
    vs: Seq<int>,
    n: int,
    date: int,
    c: Seq<char>,
) -> Option<int>
    decreases n,
{
    if n <= 0 {
        Some(0)
    } else {
        match total_in_fold(obs, ks, vs, n - 1, date, c) {
            None => None,
            Some(acc) => match convert_spec(
                obs,
                date,
                AmountV { number: vs[n - 1], currency: ks[n - 1] },
                c,
            ) {
                Some(a) => Some(crate::decimal::dec_sat(acc + a.number)),
                None => None,
            },
        }
    }
}

proof fn lemma_total_in_none(
    obs: Seq<PriceObsV>,
    ks: Seq<Seq<char>>,
    vs: Seq<int>,
    a: int,
    b: int,
    date: int,
    c: Seq<char>,
)
    requires
        0 <= a <= b,
        total_in_fold(obs, ks, vs, a, date, c).is_none(),
    ensures
        total_in_fold(obs, ks, vs, b, date, c).is_none(),
    decreases b - a,
{
    if b > a {
        lemma_total_in_none(obs, ks, vs, a, b - 1, date, c);
    }
}

pub proof fn lemma_grip_best_some(s: Seq<PriceObsV>, d: int, b: Seq<char>, q: Seq<char>, i: int)
    requires
        0 <= i < s.len(),
        s[i].base == b,
        s[i].quote == q,
        s[i].date <= d,
    ensures
        grip_best(s, d, b, q).is_some(),
    decreases s.len(),
{
    if i == s.len() - 1 {
    } else {
        assert(s.drop_last()[i] == s[i]);
        lemma_grip_best_some(s.drop_last(), d, b, q, i);
    }
}

pub proof fn lemma_hop_scan_props(
    full: Seq<PriceObsV>,
    s: Seq<PriceObsV>,
    d: int,
    b: Seq<char>,
    q: Seq<char>,
)
    requires
        hop_scan(full, s, d, b, q).is_some(),
        forall|i: int| #![trigger s[i]]
            0 <= i < s.len() ==> exists|j: int| 0 <= j < full.len() && #[trigger] full[j] == s[i],
    ensures
        grip_best(full, d, b, hop_scan(full, s, d, b, q).unwrap()).is_some(),
        grip_best(full, d, hop_scan(full, s, d, b, q).unwrap(), q).is_some(),
    decreases s.len(),
{
    let m = hop_scan(full, s, d, b, q).unwrap();
    let o = s.last();
    let rest = hop_scan(full, s.drop_last(), d, b, q);
    assert(forall|i: int|
        0 <= i < s.drop_last().len() ==> s.drop_last()[i] == s[i]);
    if o.base == b && o.date <= d && grip_best(full, d, o.quote, q).is_some() {
        if m == o.quote && (rest.is_none() || str_lt(o.quote, rest.unwrap())
            || rest.unwrap() == o.quote) {
            let j = choose|j: int| 0 <= j < full.len() && full[j] == o;
            lemma_grip_best_some(full, d, b, o.quote, j);
        }
        if rest.is_some() && m == rest.unwrap() {
            lemma_hop_scan_props(full, s.drop_last(), d, b, q);
        }
        if m != o.quote {
            assert(rest.is_some() && m == rest.unwrap());
        } else {
            if !(rest.is_none() || !str_lt(o.quote, rest.unwrap())) {
            }
            let j = choose|j: int| 0 <= j < full.len() && full[j] == o;
            assert(0 <= s.len() - 1 < s.len());
            lemma_grip_best_some(full, d, b, o.quote, j);
        }
    } else {
        lemma_hop_scan_props(full, s.drop_last(), d, b, q);
    }
}

proof fn lemma_bytes_lt_skip(a: Seq<u8>, b: Seq<u8>, i: int)
    requires
        0 <= i <= a.len(),
        i <= b.len(),
        forall|j: int| 0 <= j < i ==> a[j] == b[j],
    ensures
        bytes_lt(a, b) == bytes_lt(a.skip(i), b.skip(i)),
    decreases i,
{
    if i > 0 {
        if b.len() == 0 {
        } else if a.len() == 0 {
        } else {
            assert(a[0] == b[0]);
            assert(a.drop_first() =~= a.skip(1));
            assert(b.drop_first() =~= b.skip(1));
            lemma_bytes_lt_skip(a.skip(1), b.skip(1), i - 1);
            assert(a.skip(1).skip(i - 1) =~= a.skip(i));
            assert(b.skip(1).skip(i - 1) =~= b.skip(i));
        }
    } else {
        assert(a.skip(0) =~= a);
        assert(b.skip(0) =~= b);
    }
}

/// Compares two strings in byte-wise lexicographic order.
pub fn str_compare_lt(a: &str, b: &str) -> (r: bool)
    ensures
        r == str_lt(a@, b@),
{
    let ab = a.as_bytes();
    let bb = b.as_bytes();
    let mut i: usize = 0;
    loop
        invariant
            ab@ == encode_utf8(a@),
            bb@ == encode_utf8(b@),
            i <= ab@.len(),
            i <= bb@.len(),
            forall|j: int| 0 <= j < i ==> ab@[j] == bb@[j],
        decreases ab@.len() - i,
    {
        proof {
            lemma_bytes_lt_skip(ab@, bb@, i as int);
        }
        if i < ab.len() && i < bb.len() {
            if ab[i] < bb[i] {
                proof {
                    assert(ab@.skip(i as int)[0] == ab@[i as int]);
                    assert(bb@.skip(i as int)[0] == bb@[i as int]);
                }
                return true;
            }
            if ab[i] > bb[i] {
                proof {
                    assert(ab@.skip(i as int)[0] == ab@[i as int]);
                    assert(bb@.skip(i as int)[0] == bb@[i as int]);
                }
                return false;
            }
            i = i + 1;
        } else {
            let r = i < bb.len();
            proof {
                if i == ab@.len() {
                    assert(ab@.skip(i as int).len() == 0);
                } else {
                    assert(bb@.skip(i as int).len() == 0);
                }
            }
            return r;
        }
    }
}

/// The time-indexed store of exchange-rate observations.
#[derive(Clone, Debug, PartialEq)]
pub struct DatedPriceGrip {
    pub observations: Vec<PriceObs>,
}

impl View for DatedPriceGrip {
    type V = Seq<PriceObsV>;

    open spec fn view(&self) -> Seq<PriceObsV> {
        self.observations@.map(|i: int, o: PriceObs| o@)
    }
}

impl DatedPriceGrip {
    pub fn new() -> (r: DatedPriceGrip)
        ensures
            r@ == Seq::<PriceObsV>::empty(),
    {
        let r = DatedPriceGrip { observations: Vec::new() };
        proof {
            assert(r@ =~= Seq::<PriceObsV>::empty());
        }
        r
    }

    /// Records one observation.
    pub fn insert(&mut self, date: u64, base: Currency, quote: Currency, rate: Decimal)
        ensures
            final(self)@ == old(self)@.push(
                PriceObsV { date: date as int, base: base@, quote: quote@, rate: rate@ },
            ),
    {
        let ghost pre = self@;
        let obs = PriceObs { date, base, quote, rate };
        let ghost obsv = obs@;
        self.observations.push(obs);
        proof {
            assert(self@ =~= pre.push(obsv));
        }
    }

    /// The rate picked for `base -> quote` as of `date`.
    pub fn lookup_rate(&self, date: u64, base: &String, quote: &String) -> (r: Option<Decimal>)
        ensures
            match r {
                Some(rate) => grip_best(self@, date as int, base@, quote@).is_some() && grip_best(
                    self@,
                    date as int,
                    base@,
                    quote@,
                ).unwrap().rate == rate@,
                None => grip_best(self@, date as int, base@, quote@).is_none(),
            },
    {
        let ghost s = self@;
        let n: usize = self.observations.len();
        let mut best: Option<(u64, Decimal)> = None;
        let mut i: usize = 0;
        while i < n
            invariant
                n == self.observations@.len(),
                s == self@,
                s.len() == n,
                i <= n,
                match best {
                    Some(p) => grip_best(s.take(i as int), date as int, base@, quote@).is_some()
                        && grip_best(s.take(i as int), date as int, base@, quote@).unwrap().rate
                        == p.1@ && grip_best(s.take(i as int), date as int, base@, quote@).unwrap().date
                        == p.0 as int,
                    None => grip_best(s.take(i as int), date as int, base@, quote@).is_none(),
                },
            decreases n - i,
        {
            proof {
                assert(s.take(i + 1).drop_last() =~= s.take(i as int));
                assert(s.take(i + 1).last() == s[i as int]);
                assert(s[i as int] == self.observations@[i as int]@);
            }
            let o = &self.observations[i];
            if o.base == *base && o.quote == *quote && o.date <= date {
                let replace = match &best {
                    None => true,
                    Some(p) => o.date >= p.0,
                };
                if replace {
                    best = Some((o.date, o.rate));
                }
            }
            i = i + 1;
        }
        proof {
            assert(s.take(n as int) =~= s);
        }
        match best {
            Some(p) => Some(p.1),
            None => None,
        }
    }

    /// Converts an amount into `target` as of `date`: directly when a
    /// rate is known, through the lexicographically least intermediate
    /// commodity otherwise; an amount already in `target` passes
    /// through unchanged.
    pub fn convert(&self, date: u64, amount: &Amount, target: &String) -> (r: Result<
        Amount,
        LedgerError,
    >)
        ensures
            match r {
                Ok(a) => convert_spec(self@, date as int, amount@, target@) == Some(a@),
                Err(e) => convert_spec(self@, date as int, amount@, target@).is_none() && e@
                    == (crate::error::LedgerErrorV::NoPriceAvailable {
                    currency: amount@.currency,
                    target: target@,
                }),
            },
    {
        if amount.currency == *target {
            return Ok(amount.duplicate());
        }
        match self.lookup_rate(date, &amount.currency, target) {
            Some(rate) => Ok(Amount::new(amount.number.mul(rate), target.clone())),
            None => {
                match self.hop_intermediate(date, &amount.currency, target) {
                    Some(m) => {
                        let r1 = match self.lookup_rate(date, &amount.currency, &m) {
                            Some(x) => x,
                            None => {
                                proof {
                                    assert(false);
                                }
                                Decimal::zero()
                            },
                        };
                        let r2 = match self.lookup_rate(date, &m, target) {
                            Some(x) => x,
                            None => {
                                proof {
                                    assert(false);
                                }
                                Decimal::zero()
                            },
                        };
                        Ok(Amount::new(amount.number.mul(r1).mul(r2), target.clone()))
                    },
                    None => Err(
                        LedgerError::NoPriceAvailable {
                            currency: amount.currency.clone(),
                            target: target.clone(),
                        },
                    ),
                }
            },
        }
    }

    /// The total of a snapshot's holdings, each converted into
    /// `commodity` via this grip as of `date`: the commodity-aware
    /// arithmetic an account snapshot exposes. The first holding with
    /// no price available fails the whole sum.
    pub fn total_in(
        &self,
        snapshot: &crate::inventory::AccountSnapshot,
        commodity: &String,
        date: u64,
    ) -> (r: Result<Decimal, LedgerError>)
        ensures
            ({
                let ks = snapshot.inner.keys_seq();
                let vs = snapshot.inner.vals_seq();
                match r {
                    Ok(total) => total_in_fold(
                        self@,
                        ks,
                        vs,
                        ks.len() as int,
                        date as int,
                        commodity@,
                    ) == Some(total@),
                    Err(e) => total_in_fold(
                        self@,
                        ks,
                        vs,
                        ks.len() as int,
                        date as int,
                        commodity@,
                    ).is_none() && (e@ matches crate::error::LedgerErrorV::NoPriceAvailable {
                        currency: _,
                        target: t,
                    } && t == commodity@),
                }
            }),
    {
        let ghost ks = snapshot.inner.keys_seq();
        let ghost vs = snapshot.inner.vals_seq();
        let n = snapshot.inner.len();
        let mut acc = Decimal::zero();
        let mut i: usize = 0;
        while i < n
            invariant
                n == ks.len(),
                ks == snapshot.inner.keys_seq(),
                vs == snapshot.inner.vals_seq(),
                vs.len() == n,
                i <= n,
                total_in_fold(self@, ks, vs, i as int, date as int, commodity@) == Some(acc@),
            decreases n - i,
        {
            let c = snapshot.inner.key_at(i);
            let v = *snapshot.inner.val_at(i);
            let holding = Amount::new(v, c.clone());
            match self.convert(date, &holding, commodity) {
                Ok(converted) => {
                    acc = acc.add(converted.number);
                },
                Err(e) => {
                    proof {
                        assert(total_in_fold(
                            self@,
                            ks,
                            vs,
                            i + 1,
                            date as int,
                            commodity@,
                        ).is_none());
                        lemma_total_in_none(self@, ks, vs, i + 1, n as int, date as int, commodity@);
                    }
                    return Err(e);
                },
            }
            i = i + 1;
        }
        Ok(acc)
    }

    /// The intermediate commodity one-hop routing picks, if any.
    fn hop_intermediate(&self, date: u64, base: &String, quote: &String) -> (r: Option<String>)
        ensures
            match r {
                Some(m) => hop_scan(self@, self@, date as int, base@, quote@) == Some(m@)
                    && grip_best(self@, date as int, base@, m@).is_some() && grip_best(
                    self@,
                    date as int,
                    m@,
                    quote@,
                ).is_some(),
                None => hop_scan(self@, self@, date as int, base@, quote@).is_none(),
            },
    {
        let ghost s = self@;
        let n: usize = self.observations.len();
        let mut best: Option<String> = None;
        let mut i: usize = 0;
        while i < n
            invariant
                n == self.observations@.len(),
                s == self@,
                s.len() == n,
                i <= n,
                match best {
                    Some(m) => hop_scan(s, s.take(i as int), date as int, base@, quote@) == Some(
                        m@,
                    ),
                    None => hop_scan(s, s.take(i as int), date as int, base@, quote@).is_none(),
                },
            decreases n - i,
        {
            proof {
                assert(s.take(i + 1).drop_last() =~= s.take(i as int));
                assert(s.take(i + 1).last() == s[i as int]);
                assert(s[i as int] == self.observations@[i as int]@);
            }
            let o = &self.observations[i];
            if o.base == *base && o.date <= date && self.lookup_rate(
                date,
                &o.quote,
                quote,
            ).is_some() {
                let replace = match &best {
                    None => true,
                    Some(m) => str_compare_lt(o.quote.as_str(), m.as_str()),
                };
                if replace {
                    best = Some(o.quote.clone());
                }
            }
            i = i + 1;
        }
        proof {
            assert(s.take(n as int) =~= s);
            if best is Some {
                assert forall|k: int| #![trigger s[k]] 0 <= k < s.len() implies exists|j: int|
                    0 <= j < s.len() && #[trigger] s[j] == s[k] by {
                    assert(0 <= k < s.len() && s[k] == s[k]);
                }
                lemma_hop_scan_props(s, s, date as int, base@, quote@);
            }
        }
        best
    }
}

} // verus!
