//! Stable instrument-id registry. Ids are fixed and committed (see
//! [`Registry::builtin`]); replay determinism and the tick store depend on
//! ids never changing meaning.
use crate::event::Venue;
use crate::json;
use crate::text;
use vstd::prelude::*;
use vstd::string::*;

verus! {

/// One instrument on one venue.
#[derive(Debug, PartialEq, Eq)]
pub struct InstrumentMeta {
    /// Stable id (never reused, never renumbered).
    pub id: u32,
    /// Venue.
    pub venue: Venue,
    /// Venue-native symbol as used by its REST API (e.g. `BTC-USD`,
    /// `BTCUSDT`, `BTC/USD`).
    pub venue_symbol: String,
    /// Cross-venue canonical name, e.g. `BTC-USD`.
    pub canonical: String,
}

/// An instrument, as values.
#[verifier::ext_equal]
pub struct Meta {
    pub id: u32,
    pub venue: Venue,
    pub symbol: Seq<char>,
    pub canonical: Seq<char>,
}

impl View for InstrumentMeta {
    type V = Meta;

    open spec fn view(&self) -> Meta {
        Meta {
            id: self.id,
            venue: self.venue,
            symbol: self.venue_symbol@,
            canonical: self.canonical@,
        }
    }
}

/// Lookup table over [`InstrumentMeta`].
#[derive(Debug)]
pub struct Registry {
    metas: Vec<InstrumentMeta>,
}

/// Registry construction errors.
#[derive(Debug, PartialEq, Eq)]
pub enum RegistryError {
    /// Two entries share an id.
    DuplicateId(u32),
    /// Two entries share (venue, venue_symbol).
    DuplicateSymbol(String),
    /// Id 0 is reserved as "unknown".
    ReservedId,
}

impl RegistryError {
    /// The message of this error.
    pub open spec fn message_spec(&self) -> Seq<char> {
        match self {
            RegistryError::DuplicateId(id) => "duplicate instrument id "@ + text::chars_of(
                text::dec_bytes(*id as nat),
            ),
            RegistryError::DuplicateSymbol(s) => "duplicate venue symbol "@ + s@,
            RegistryError::ReservedId => "instrument id 0 is reserved"@,
        }
    }

    /// The message of this error, for logs.
    pub fn message(&self) -> (r: String)
        ensures
            r@ == self.message_spec(),
    {
        match self {
            RegistryError::DuplicateId(id) => {
                let mut out: String = "duplicate instrument id ".to_owned();
                text::push_dec(&mut out, *id as u128);
                out
            },
            RegistryError::DuplicateSymbol(s) => "duplicate venue symbol ".to_owned().concat(
                s.as_str(),
            ),
            RegistryError::ReservedId => "instrument id 0 is reserved".to_owned(),
        }
    }
}

/// Some entry has the id `id`.
pub open spec fn has_id(t: Seq<Meta>, id: u32) -> bool {
    exists|i: int| 0 <= i < t.len() && (#[trigger] t[i]).id == id
}

/// Some entry has the venue and the symbol.
pub open spec fn has_symbol(t: Seq<Meta>, venue: Venue, symbol: Seq<char>) -> bool {
    exists|i: int| 0 <= i < t.len() && (#[trigger] t[i]).venue == venue && t[i].symbol == symbol
}

/// No id is 0, and no two entries share an id, or a venue and a symbol.
pub open spec fn unambiguous(t: Seq<Meta>) -> bool {
    &&& forall|i: int| 0 <= i < t.len() ==> (#[trigger] t[i]).id != 0
    &&& forall|i: int, j: int|
        0 <= i < j < t.len() ==> (#[trigger] t[i]).id != (#[trigger] t[j]).id
    &&& forall|i: int, j: int|
        0 <= i < j < t.len() && (#[trigger] t[i]).venue == (#[trigger] t[j]).venue ==> t[i].symbol
            != t[j].symbol
}

/// `e` is why `m` cannot join the entries `t`.
pub open spec fn refused(t: Seq<Meta>, m: Meta, e: RegistryError) -> bool {
    if m.id == 0 {
        e is ReservedId
    } else if has_id(t, m.id) {
        e == RegistryError::DuplicateId(m.id)
    } else {
        &&& has_symbol(t, m.venue, m.symbol)
        &&& e matches RegistryError::DuplicateSymbol(s) && s@ == m.symbol
    }
}

/// `m` can join the entries `t`.
pub open spec fn joins(t: Seq<Meta>, m: Meta) -> bool {
    m.id != 0 && !has_id(t, m.id) && !has_symbol(t, m.venue, m.symbol)
}

/// The entries of `t` in front of `n` join one after the other.
pub open spec fn all_join(t: Seq<Meta>, n: int) -> bool {
    forall|i: int| 0 <= i < n ==> joins(t.take(i), #[trigger] t[i])
}

/// The values of the entries `v`.
pub open spec fn metas_view(v: Seq<InstrumentMeta>) -> Seq<Meta> {
    Seq::new(v.len(), |i: int| v[i]@)
}

/// Entries that join one after the other are unambiguous, and the other way
/// round.
pub proof fn lemma_joined_is_unambiguous(t: Seq<Meta>)
    ensures
        all_join(t, t.len() as int) <==> unambiguous(t),
{
    if all_join(t, t.len() as int) {
        assert forall|i: int, j: int| 0 <= i < j < t.len() implies (#[trigger] t[i]).id
            != (#[trigger] t[j]).id && (t[i].venue == t[j].venue ==> t[i].symbol != t[j].symbol) by {
            assert(joins(t.take(j), t[j]));
            assert(t.take(j)[i] == t[i]);
        }
        assert forall|i: int| 0 <= i < t.len() implies (#[trigger] t[i]).id != 0 by {
            assert(joins(t.take(i), t[i]));
        }
    }
    if unambiguous(t) {
        assert forall|i: int| 0 <= i < t.len() implies joins(t.take(i), #[trigger] t[i]) by {
            assert forall|j: int| 0 <= j < t.take(i).len() implies (#[trigger] t.take(i)[j]).id
                != t[i].id && (t.take(i)[j].venue == t[i].venue ==> t.take(i)[j].symbol
                != t[i].symbol) by {
                assert(t.take(i)[j] == t[j]);
            }
        }
    }
}

/// The bases of the builtin universe.
pub open spec fn base_symbol(i: int) -> Seq<char> {
    if i == 0 {
        "BTC"@
    } else if i == 1 {
        "ETH"@
    } else if i == 2 {
        "SOL"@
    } else if i == 3 {
        "XRP"@
    } else {
        "DOGE"@
    }
}

/// What a venue puts behind a base.
pub open spec fn quote_suffix(v: Venue) -> Seq<char> {
    match v {
        Venue::Coinbase => "-USD"@,
        Venue::Binance => "USDT"@,
        Venue::Kraken => "/USD"@,
    }
}

/// The venue of the builtin entry `i`.
pub open spec fn builtin_venue(i: int) -> Venue {
    if i < 5 {
        Venue::Coinbase
    } else if i < 10 {
        Venue::Binance
    } else {
        Venue::Kraken
    }
}

/// The builtin entries: Coinbase 1-5, Binance 6-10, Kraken 11-15.
pub open spec fn builtin_metas() -> Seq<Meta> {
    Seq::new(
        15,
        |i: int|
            Meta {
                id: (i + 1) as u32,
                venue: builtin_venue(i),
                symbol: base_symbol(i % 5) + quote_suffix(builtin_venue(i)),
                canonical: base_symbol(i % 5) + "-USD"@,
            },
    )
}

/// The builtin universe is unambiguous.
pub proof fn lemma_builtin_unambiguous()
    ensures
        unambiguous(builtin_metas()),
{
    reveal_strlit("BTC");
    reveal_strlit("ETH");
    reveal_strlit("SOL");
    reveal_strlit("XRP");
    reveal_strlit("DOGE");
    let t = builtin_metas();
    assert forall|i: int, j: int|
        0 <= i < j < t.len() && (#[trigger] t[i]).venue == (#[trigger] t[j]).venue implies t[i].symbol
        != t[j].symbol by {
        assert(t[i].symbol[0] == base_symbol(i % 5)[0]);
        assert(t[j].symbol[0] == base_symbol(j % 5)[0]);
        assert(i % 5 != j % 5);
    }
}

impl View for Registry {
    type V = Seq<Meta>;

    closed spec fn view(&self) -> Seq<Meta> {
        metas_view(self.metas@)
    }
}

impl Default for Registry {
    fn default() -> (r: Self)
        ensures
            r@ == Seq::<Meta>::empty(),
    {
        let r = Registry { metas: Vec::new() };
        assert(r@ =~= Seq::<Meta>::empty());
        r
    }
}

impl Registry {
    /// Build a registry from metas, validating uniqueness.
    pub fn new(metas: Vec<InstrumentMeta>) -> (r: Result<Self, RegistryError>)
        ensures
            match r {
                Ok(reg) => unambiguous(metas_view(metas@)) && reg@ == metas_view(metas@),
                Err(e) => !unambiguous(metas_view(metas@)) && exists|k: int|
                    0 <= k < metas@.len() && all_join(metas_view(metas@), k) && #[trigger] refused(
                        metas_view(metas@).take(k),
                        metas_view(metas@)[k],
                        e,
                    ),
            },
    {
        let ghost all = metas_view(metas@);
        let mut r: Registry = Registry::default();
        let mut rest: Vec<InstrumentMeta> = metas;
        let mut i: usize = 0;
        let n: usize = rest.len();
        assert(all.take(0) =~= Seq::<Meta>::empty());
        let mut queue: Vec<InstrumentMeta> = Vec::new();
        // Reversed, so that the entries come off the end in order.
        while rest.len() > 0
            invariant
                n == all.len(),
                rest@.len() + queue@.len() == n,
                forall|k: int| 0 <= k < rest@.len() ==> (#[trigger] rest@[k])@ == all[k],
                forall|k: int|
                    0 <= k < queue@.len() ==> (#[trigger] queue@[k])@ == all[n - 1 - k],
            decreases rest@.len(),
        {
            if let Some(m) = rest.pop() {
                queue.push(m);
            }
        }
        while queue.len() > 0
            invariant
                n == all.len(),
                i + queue@.len() == n,
                forall|k: int|
                    0 <= k < queue@.len() ==> (#[trigger] queue@[k])@ == all[n - 1 - k],
                r@ == all.take(i as int),
                all_join(all, i as int),
                all == metas_view(metas@),
            decreases queue@.len(),
        {
            if let Some(m) = queue.pop() {
                assert(m@ == all[i as int]);
                match r.insert(m) {
                    Ok(_) => {
                        assert(all.take(i + 1) =~= all.take(i as int).push(all[i as int]));
                    },
                    Err(e) => {
                        proof {
                            lemma_joined_is_unambiguous(all);
                            assert(refused(all.take(i as int), all[i as int], e));
                        }
                        return Err(e);
                    },
                }
                i += 1;
            }
        }
        proof {
            lemma_joined_is_unambiguous(all);
            assert(all.take(i as int) =~= all);
        }
        Ok(r)
    }

    /// Insert one meta, validating uniqueness.
    pub fn insert(&mut self, m: InstrumentMeta) -> (r: Result<(), RegistryError>)
        ensures
            match r {
                Ok(_) => joins(old(self)@, m@) && final(self)@ == old(self)@.push(m@),
                Err(e) => !joins(old(self)@, m@) && refused(old(self)@, m@, e) && final(self)@
                    == old(self)@,
            },
    {
        if m.id == 0 {
            return Err(RegistryError::ReservedId);
        }
        if self.get(m.id).is_some() {
            return Err(RegistryError::DuplicateId(m.id));
        }
        if self.id_of(m.venue, m.venue_symbol.as_str()).is_some() {
            return Err(RegistryError::DuplicateSymbol(m.venue_symbol));
        }
        let ghost before = self@;
        let ghost mv = m@;
        self.metas.push(m);
        assert(self@ =~= before.push(mv));
        Ok(())
    }

    /// Meta by id.
    pub fn get(&self, id: u32) -> (r: Option<&InstrumentMeta>)
        ensures
            match r {
                Some(m) => m.id == id && exists|i: int|
                    0 <= i < self@.len() && #[trigger] self@[i] == m@,
                None => !has_id(self@, id),
            },
    {
        let mut i: usize = 0;
        while i < self.metas.len()
            invariant
                i <= self.metas@.len(),
                self@ == metas_view(self.metas@),
                forall|k: int| 0 <= k < i ==> (#[trigger] self@[k]).id != id,
            decreases self.metas@.len() - i,
        {
            if self.metas[i].id == id {
                assert(self@[i as int] == self.metas@[i as int]@);
                return Some(&self.metas[i]);
            }
            i += 1;
        }
        None
    }

    /// Id by (venue, venue-native symbol).
    pub fn id_of(&self, venue: Venue, venue_symbol: &str) -> (r: Option<u32>)
        ensures
            match r {
                Some(id) => exists|i: int|
                    0 <= i < self@.len() && (#[trigger] self@[i]).id == id && self@[i].venue == venue
                        && self@[i].symbol == venue_symbol@,
                None => !has_symbol(self@, venue, venue_symbol@),
            },
    {
        let mut i: usize = 0;
        while i < self.metas.len()
            invariant
                i <= self.metas@.len(),
                self@ == metas_view(self.metas@),
                forall|k: int|
                    0 <= k < i ==> !((#[trigger] self@[k]).venue == venue && self@[k].symbol
                        == venue_symbol@),
            decreases self.metas@.len() - i,
        {
            let m: &InstrumentMeta = &self.metas[i];
            if m.venue == venue && json::same_str(m.venue_symbol.as_str(), venue_symbol) {
                assert(self@[i as int] == m@);
                return Some(m.id);
            }
            assert(self@[i as int] == m@);
            i += 1;
        }
        None
    }

    /// All metas.
    pub fn all(&self) -> (r: &[InstrumentMeta])
        ensures
            metas_view(r@) == self@,
    {
        self.metas.as_slice()
    }

    /// Metas for one venue, in registry order.
    pub fn for_venue(&self, venue: Venue) -> (r: Vec<&InstrumentMeta>)
        ensures
            Seq::new(r@.len(), |i: int| r@[i]@) == self@.filter(|m: Meta| m.venue == venue),
    {
        let mut out: Vec<&InstrumentMeta> = Vec::new();
        let ghost keep = |m: Meta| m.venue == venue;
        let mut i: usize = 0;
        proof {
            reveal(Seq::filter);
            assert(self@.take(0).filter(keep) =~= Seq::<Meta>::empty());
            assert(Seq::new(out@.len(), |i: int| out@[i]@) =~= Seq::<Meta>::empty());
        }
        while i < self.metas.len()
            invariant
                i <= self.metas@.len(),
                self@ == metas_view(self.metas@),
                keep == (|m: Meta| m.venue == venue),
                Seq::new(out@.len(), |i: int| out@[i]@) == self@.take(i as int).filter(keep),
            decreases self.metas@.len() - i,
        {
            let ghost before = Seq::new(out@.len(), |i: int| out@[i]@);
            let m: &InstrumentMeta = &self.metas[i];
            proof {
                reveal(Seq::filter);
                assert(self@.take(i + 1).drop_last() =~= self@.take(i as int));
                assert(self@.take(i + 1).last() == m@);
            }
            if m.venue == venue {
                out.push(m);
                assert(Seq::new(out@.len(), |i: int| out@[i]@) =~= before.push(m@));
            }
            i += 1;
        }
        assert(self@.take(i as int) =~= self@);
        out
    }

    /// The committed builtin universe: BTC, ETH, SOL, XRP, DOGE vs USD
    /// (USDT on Binance). Ids: Coinbase 1-5, Binance 6-10, Kraken 11-15.
    pub fn builtin() -> (r: Self)
        ensures
            r@ == builtin_metas(),
    {
        let mut r: Registry = Registry::default();
        let mut i: u32 = 0;
        proof {
            lemma_builtin_unambiguous();
            lemma_joined_is_unambiguous(builtin_metas());
            assert(builtin_metas().take(0) =~= Seq::<Meta>::empty());
        }
        while i < 15
            invariant
                i <= 15,
                r@ == builtin_metas().take(i as int),
                all_join(builtin_metas(), 15),
            decreases 15 - i,
        {
            let venue: Venue = if i < 5 {
                Venue::Coinbase
            } else if i < 10 {
                Venue::Binance
            } else {
                Venue::Kraken
            };
            let base: &str = base_name(i % 5);
            let suffix: &str = match venue {
                Venue::Coinbase => "-USD",
                Venue::Binance => "USDT",
                Venue::Kraken => "/USD",
            };
            let m = InstrumentMeta {
                id: i + 1,
                venue,
                venue_symbol: base.to_owned().concat(suffix),
                canonical: base.to_owned().concat("-USD"),
            };
            assert(m@ == builtin_metas()[i as int]);
            assert(joins(builtin_metas().take(i as int), builtin_metas()[i as int]));
            let _ = r.insert(m);
            assert(builtin_metas().take(i + 1) =~= builtin_metas().take(i as int).push(
                builtin_metas()[i as int],
            ));
            i += 1;
        }
        assert(builtin_metas().take(15) =~= builtin_metas());
        r
    }
}

/// The base `i` of the builtin universe.
fn base_name(i: u32) -> (r: &'static str)
    requires
        i < 5,
    ensures
        r@ == base_symbol(i as int),
{
    match i {
        0 => "BTC",
        1 => "ETH",
        2 => "SOL",
        3 => "XRP",
        _ => "DOGE",
    }
}

} // verus!
