use crate::ids::new_ulid;
use crate::intent::ConsentStamp;
use crate::persist::{decimal_literal_value, digits_value, parse_u128, unsigned_digits};
use crate::counts::{stored_at, map_get, map_put, map_take};
use std::collections::HashMap;
use crate::text::{
    canonical_decimal, decimal, lemma_canonical_is_decimal, lemma_decimal_canonical, push_decimal,
};
use crate::types::{AvatarId, FrameId, FwauId, IuocId, PacketId, Tick};
use vstd::prelude::*;

verus! {

/// Bit pattern of the quality every new soul starts with: 0.5 as an `f32`.
pub const INITIAL_QUALITY_BITS: u32 = 0x3f00_0000;

/// Consent pacts a soul has granted, one text per pact.
#[derive(Clone, Debug, Default)]
pub struct ConsentGraph {
    pub pacts: Vec<String>,
}

#[derive(Clone, Debug, Default)]
pub struct ReincarnationPrefs {
    pub preferred_factions: Vec<String>,
}

/// A soul. Its quality is an `f32` kept here as its bit pattern.
#[derive(Clone, Debug)]
pub struct IUOC {
    pub id: IuocId,
    pub quality_bits: u32,
    pub incarnations: u32,
    pub bound_fwau: Option<FwauId>,
    pub consent: ConsentGraph,
    pub prefs: ReincarnationPrefs,
}

/// What a soul is, in terms of plain values.
pub struct SoulView {
    pub id: u128,
    pub quality_bits: u32,
    pub incarnations: u32,
    pub bound_fwau: Option<u128>,
    pub pacts: Seq<String>,
    pub factions: Seq<String>,
}

pub open spec fn fwau_key(f: Option<FwauId>) -> Option<u128> {
    match f {
        Some(x) => Some(x.0),
        None => None,
    }
}

impl View for IUOC {
    type V = SoulView;

    open spec fn view(&self) -> SoulView {
        SoulView {
            id: self.id.0,
            quality_bits: self.quality_bits,
            incarnations: self.incarnations,
            bound_fwau: fwau_key(self.bound_fwau),
            pacts: self.consent.pacts@,
            factions: self.prefs.preferred_factions@,
        }
    }
}

#[derive(Clone, Copy, Debug, PartialEq, Eq, Structural)]
pub enum MemoryClearance {
    IncarnationOnly,
    PastOwn,
    PastShared,
}

#[derive(Clone, Copy, Debug, Default, PartialEq, Eq, Structural)]
pub struct EntityRef {
    pub index: u32,
    pub generation: u32,
}

#[derive(Clone, Copy, Debug, Default, PartialEq, Eq, Structural)]
pub struct IntentQueueSnapshot {
    pub len: usize,
}

/// A live session of a soul in a frame. The quality it was bound with is kept as
/// the bit pattern of an `f32`; the psi budget derived from it is computed by the
/// host.
#[derive(Clone, Copy, Debug)]
pub struct FWAU {
    pub id: FwauId,
    pub iuoc_id: IuocId,
    pub avatar_id: EntityRef,
    pub quality_snapshot_bits: u32,
    pub intent_buf: IntentQueueSnapshot,
    pub bound_at: Tick,
    pub memory_clearance: MemoryClearance,
}

/// What a soul keeps of one finished life.
#[derive(Debug)]
pub struct ExperiencePacket {
    pub id: PacketId,
    pub iuoc: IuocId,
    pub avatar: AvatarId,
    pub frame: FrameId,
    pub bound_at: Tick,
    pub unbound_at: Tick,
    pub summary: String,
    pub death_cause: String,
}

pub struct PacketView {
    pub id: u128,
    pub iuoc: u128,
    pub avatar: u64,
    pub frame: u32,
    pub bound_at: u64,
    pub unbound_at: u64,
    pub summary: Seq<char>,
    pub death_cause: Seq<char>,
}

impl View for ExperiencePacket {
    type V = PacketView;

    open spec fn view(&self) -> PacketView {
        PacketView {
            id: self.id.0,
            iuoc: self.iuoc.0,
            avatar: self.avatar.0,
            frame: self.frame.0,
            bound_at: self.bound_at.0,
            unbound_at: self.unbound_at.0,
            summary: self.summary@,
            death_cause: self.death_cause@,
        }
    }
}

impl Clone for ExperiencePacket {
    fn clone(&self) -> (r: Self)
        ensures
            r@ == self@,
    {
        ExperiencePacket {
            id: self.id,
            iuoc: self.iuoc,
            avatar: self.avatar,
            frame: self.frame,
            bound_at: self.bound_at,
            unbound_at: self.unbound_at,
            summary: self.summary.clone(),
            death_cause: self.death_cause.clone(),
        }
    }
}

#[derive(Clone, Copy, Debug, PartialEq, Eq, Structural)]
pub enum UnbindReason {
    Death,
    Logout,
    Disconnect,
    Superseded,
}

#[derive(Clone, Copy, Debug, PartialEq, Eq, Structural)]
pub enum BindError {
    NotFound,
    AlreadyBound,
}

pub open spec fn packet_views(s: Seq<ExperiencePacket>) -> Seq<PacketView> {
    s.map_values(|p: ExperiencePacket| p@)
}

/// The summary line of a finished life.
pub open spec fn life_summary(incarnations: u32) -> Seq<char> {
    "Life "@ + decimal(incarnations as nat) + " ended"@
}

/// A soul freshly created with id `id`.
pub open spec fn fresh_soul(v: SoulView, id: u128) -> bool {
    &&& v.id == id
    &&& v.quality_bits == INITIAL_QUALITY_BITS
    &&& v.incarnations == 0
    &&& v.bound_fwau is None
    &&& v.pacts.len() == 0
    &&& v.factions.len() == 0
}

/// The soul with its binding, incarnation count and quality replaced.
pub open spec fn rebound(
    v: SoulView,
    bound: Option<u128>,
    incarnations: u32,
    quality_bits: u32,
) -> SoulView {
    SoulView { bound_fwau: bound, incarnations, quality_bits, ..v }
}

/// The session a bind creates.
pub open spec fn bound_session(
    fwau_id: FwauId,
    iuoc: IuocId,
    avatar: EntityRef,
    quality_bits: u32,
    bound_at: Tick,
) -> FWAU {
    FWAU {
        id: fwau_id,
        iuoc_id: iuoc,
        avatar_id: avatar,
        quality_snapshot_bits: quality_bits,
        intent_buf: IntentQueueSnapshot { len: 0 },
        bound_at,
        memory_clearance: MemoryClearance::IncarnationOnly,
    }
}

/// A soul as it stands after the souls of `list` were stored in order over `prior`:
/// the last one with id `q` wins.
pub open spec fn loaded_soul(list: Seq<IUOC>, q: u128, prior: Option<SoulView>) -> Option<SoulView>
    decreases list.len(),
{
    if list.len() == 0 {
        prior
    } else if list.last().id.0 == q {
        Some(list.last()@)
    } else {
        loaded_soul(list.drop_last(), q, prior)
    }
}

/// A soul's packets after the packet lists of `list` were stored in order over
/// `prior`: the last list for `q` wins.
pub open spec fn loaded_packets(
    list: Seq<(IuocId, Vec<ExperiencePacket>)>,
    q: u128,
    prior: Seq<PacketView>,
) -> Seq<PacketView>
    decreases list.len(),
{
    if list.len() == 0 {
        prior
    } else if list.last().0.0 == q {
        packet_views(list.last().1@)
    } else {
        loaded_packets(list.drop_last(), q, prior)
    }
}

/// The text of a consent pact: scope, permitted soul and expiry tick, separated by
/// colons.
pub open spec fn pact_text(scope: Seq<char>, target: u128, expires: u64) -> Seq<char> {
    scope + seq![':'] + decimal(target as nat) + seq![':'] + decimal(expires as nat)
}

/// The text before the expiry tick in a pact for `scope` and `target`.
pub open spec fn pact_prefix(scope: Seq<char>, target: u128) -> Seq<char> {
    scope + seq![':'] + decimal(target as nat) + seq![':']
}

/// `p` is a pact for `scope` and `target` that has not expired at tick `now`.
pub open spec fn pact_grants(p: Seq<char>, scope: Seq<char>, target: u128, now: u64) -> bool {
    exists|e: u64| p == pact_text(scope, target, e) && now <= e
}

/// Builds the pact text.
pub fn pact_string(scope: &str, target: IuocId, expires: u64) -> (r: String)
    ensures
        r@ == pact_text(scope@, target.0, expires),
{
    let mut out = pact_prefix_string(scope, target.0);
    push_decimal(&mut out, expires as u128);
    out
}

fn pact_prefix_string(scope: &str, target: u128) -> (r: String)
    ensures
        r@ == pact_prefix(scope@, target),
{
    let mut out = String::from_str(scope);
    out.append(":");
    push_decimal(&mut out, target);
    out.append(":");
    proof {
        reveal_strlit(":");
        assert(":"@ =~= seq![':']);
    }
    out
}

/// The expiry tick of `p` if it is `prefix` followed by a printed `u64`.
fn pact_expiry(p: &str, prefix: &str) -> (r: Option<u64>)
    ensures
        match r {
            Some(e) => p@ == prefix@ + decimal(e as nat),
            None => forall|e: u64| p@ != prefix@ + decimal(e as nat),
        },
{
    let n = p.unicode_len();
    let m = prefix.unicode_len();
    proof {
        assert forall|e: u64| p@ == prefix@ + decimal(e as nat) implies n > m && p@.skip(m as int) == decimal(e as nat) by {
            lemma_decimal_canonical(e as nat);
            assert(p@.skip(m as int) =~= decimal(e as nat));
        }
    }
    if n <= m {
        return None;
    }
    let mut i: usize = 0;
    while i < m
        invariant
            m == prefix@.len(),
            n == p@.len(),
            m < n,
            i <= m,
            forall|j: int| 0 <= j < i ==> p@[j] == prefix@[j],
        decreases m - i,
    {
        if p.get_char(i) != prefix.get_char(i) {
            proof {
                assert forall|e: u64| p@ != prefix@ + decimal(e as nat) by {
                    if p@ == prefix@ + decimal(e as nat) {
                        assert(p@[i as int] == prefix@[i as int]);
                    }
                }
            }
            return None;
        }
        i = i + 1;
    }
    let rest = p.substring_char(m, n);
    proof {
        assert(p@ =~= prefix@ + rest@);
        assert forall|e: u64| p@ == prefix@ + decimal(e as nat) implies rest@ == decimal(e as nat) by {
            assert(rest@ =~= p@.skip(m as int));
        }
    }
    let first = rest.get_char(0);
    if first == '+' || (n - m > 1 && first == '0') {
        proof {
            assert forall|e: u64| p@ != prefix@ + decimal(e as nat) by {
                if p@ == prefix@ + decimal(e as nat) {
                    lemma_decimal_canonical(e as nat);
                    assert(crate::persist::is_digit(rest@[0]));
                }
            }
        }
        return None;
    }
    match parse_u128(rest) {
        Ok(v) => {
            proof {
                assert(unsigned_digits(rest@) == rest@);
                assert(canonical_decimal(rest@));
                lemma_canonical_is_decimal(rest@);
                assert(digits_value(rest@) == v as nat);
            }
            if v <= 0xffff_ffff_ffff_ffffu128 {
                Some(v as u64)
            } else {
                proof {
                    assert forall|e: u64| p@ != prefix@ + decimal(e as nat) by {
                        if p@ == prefix@ + decimal(e as nat) {
                            lemma_decimal_canonical(e as nat);
                        }
                    }
                }
                None
            }
        },
        Err(_) => {
            proof {
                assert forall|e: u64| p@ != prefix@ + decimal(e as nat) by {
                    if p@ == prefix@ + decimal(e as nat) {
                        lemma_decimal_canonical(e as nat);
                        assert(unsigned_digits(rest@) == rest@);
                        assert(decimal_literal_value(rest@) == Some(e as nat));
                    }
                }
            }
            None
        },
    }
}

/// Souls, their live sessions and their experience packets.
pub struct IuocRegistry {
    souls: HashMap<u128, IUOC>,
    fwau_sessions: HashMap<u128, FWAU>,
    packets: HashMap<u128, Vec<ExperiencePacket>>,
}

impl IuocRegistry {
    /// The soul with id `id`, if any.
    pub closed spec fn soul(&self, id: u128) -> Option<SoulView> {
        match stored_at(self.souls@, id) {
            Some(s) => Some(s@),
            None => None,
        }
    }

    /// The live session with id `id`, if any.
    pub closed spec fn session(&self, id: u128) -> Option<FWAU> {
        stored_at(self.fwau_sessions@, id)
    }

    /// The experience packets of soul `id`, oldest first.
    pub closed spec fn packets_of(&self, id: u128) -> Seq<PacketView> {
        match stored_at(self.packets@, id) {
            Some(v) => packet_views(v@),
            None => Seq::empty(),
        }
    }

    /// Each soul and session is stored once, under its own id.
    pub closed spec fn wf(&self) -> bool {
        &&& forall|q: u128| #[trigger] stored_at(self.souls@, q) matches Some(s) ==> s.id.0 == q
        &&& forall|q: u128|
            #[trigger] stored_at(self.fwau_sessions@, q) matches Some(f) ==> f.id.0 == q
    }

    pub open spec fn souls_unchanged_but(&self, other: &Self, id: u128) -> bool {
        forall|q: u128| q != id ==> #[trigger] self.soul(q) == other.soul(q)
    }

    pub open spec fn packets_unchanged(&self, other: &Self) -> bool {
        forall|q: u128| #[trigger] self.packets_of(q) == other.packets_of(q)
    }

    pub open spec fn sessions_unchanged(&self, other: &Self) -> bool {
        forall|q: u128| #[trigger] self.session(q) == other.session(q)
    }

    pub fn new() -> (r: Self)
        ensures
            r.wf(),
            forall|q: u128| #[trigger] r.soul(q) is None,
            forall|q: u128| #[trigger] r.session(q) is None,
            forall|q: u128| #[trigger] r.packets_of(q).len() == 0,
    {
        IuocRegistry { souls: HashMap::new(), fwau_sessions: HashMap::new(), packets: HashMap::new() }
    }

    /// Stores `soul` under its id, replacing any soul stored there.
    pub fn insert_soul(&mut self, soul: IUOC)
        requires
            old(self).wf(),
        ensures
            final(self).wf(),
            final(self).soul(soul.id.0) == Some(soul@),
            final(self).souls_unchanged_but(old(self), soul.id.0),
            final(self).sessions_unchanged(old(self)),
            final(self).packets_unchanged(old(self)),
    {
        let k = soul.id.0;
        let ghost v = soul@;
        map_put(&mut self.souls, k, soul);
        proof {
            assert forall|q: u128| q != k implies #[trigger] self.soul(q) == old(self).soul(q) by {
                assert(stored_at(self.souls@, q) == stored_at(old(self).souls@, q));
            }
            assert(stored_at(self.souls@, k) matches Some(s) && s@ == v);
        }
    }

    /// Creates a soul with a fresh ULID, quality 0.5, no incarnations and no pacts.
    pub fn create_soul(&mut self) -> (id: IuocId)
        requires
            old(self).wf(),
        ensures
            final(self).wf(),
            final(self).soul(id.0) matches Some(v) && fresh_soul(v, id.0),
            final(self).souls_unchanged_but(old(self), id.0),
            final(self).sessions_unchanged(old(self)),
            final(self).packets_unchanged(old(self)),
    {
        let id = IuocId(new_ulid());
        let soul = IUOC {
            id,
            quality_bits: INITIAL_QUALITY_BITS,
            incarnations: 0,
            bound_fwau: None,
            consent: ConsentGraph { pacts: Vec::new() },
            prefs: ReincarnationPrefs { preferred_factions: Vec::new() },
        };
        self.insert_soul(soul);
        id
    }

    pub fn get(&self, id: IuocId) -> (r: Option<&IUOC>)
        ensures
            match r {
                Some(s) => self.soul(id.0) == Some(s@),
                None => self.soul(id.0) is None,
            },
    {
        map_get(&self.souls, id.0)
    }

    pub fn fwau(&self, id: FwauId) -> (r: Option<&FWAU>)
        ensures
            match r {
                Some(f) => self.session(id.0) == Some(*f),
                None => self.session(id.0) is None,
            },
    {
        map_get(&self.fwau_sessions, id.0)
    }

    /// The experience packets of `iuoc`, oldest first; none for an unknown soul.
    pub fn packets_for(&self, iuoc: IuocId) -> (r: &[ExperiencePacket])
        ensures
            packet_views(r@) == self.packets_of(iuoc.0),
    {
        match map_get(&self.packets, iuoc.0) {
            Some(v) => v.as_slice(),
            None => {
                proof {
                    assert(packet_views(Seq::<ExperiencePacket>::empty()) =~= Seq::<PacketView>::empty());
                }
                &[]
            },
        }
    }
    /// Binds a new session `fwau_id` to soul `iuoc`. A session the soul was bound
    /// to before, under another id, ends; the soul's incarnation count goes up by one.
    pub fn bind_fwau(
        &mut self,
        iuoc: IuocId,
        fwau_id: FwauId,
        avatar: EntityRef,
        bound_at: Tick,
    ) -> (r: Result<FwauId, BindError>)
        requires
            old(self).wf(),
            old(self).soul(iuoc.0) matches Some(v) ==> v.incarnations < u32::MAX,
        ensures
            final(self).wf(),
            final(self).packets_unchanged(old(self)),
            match old(self).soul(iuoc.0) {
                None => {
                    &&& r == Err::<FwauId, BindError>(BindError::NotFound)
                    &&& final(self).souls_unchanged_but(old(self), iuoc.0)
                    &&& final(self).soul(iuoc.0) is None
                    &&& final(self).sessions_unchanged(old(self))
                },
                Some(v) => {
                    &&& r == Ok::<FwauId, BindError>(fwau_id)
                    &&& final(self).soul(iuoc.0) == Some(
                        rebound(v, Some(fwau_id.0), (v.incarnations + 1) as u32, v.quality_bits),
                    )
                    &&& final(self).souls_unchanged_but(old(self), iuoc.0)
                    &&& final(self).session(fwau_id.0) == Some(
                        bound_session(fwau_id, iuoc, avatar, v.quality_bits, bound_at),
                    )
                    &&& forall|q: u128|
                        q != fwau_id.0 ==> #[trigger] final(self).session(q) == (if v.bound_fwau
                            == Some(q) {
                            None
                        } else {
                            old(self).session(q)
                        })
                },
            },
    {
        let ghost before = *self;
        let taken = map_take(&mut self.souls, iuoc.0);
        let soul = match taken {
            Some(s) => s,
            None => {
                proof {
                    assert forall|q: u128| q != iuoc.0 implies #[trigger] self.soul(q) == before.soul(q) by {
                        assert(stored_at(self.souls@, q) == stored_at(before.souls@, q));
                    }
                }
                return Err(BindError::NotFound);
            },
        };
        let ghost v = soul@;
        if let Some(old_fwau) = soul.bound_fwau {
            if old_fwau.0 != fwau_id.0 {
                let _ = map_take(&mut self.fwau_sessions, old_fwau.0);
            }
        }
        let ghost mid = self.fwau_sessions@;
        let fwau = FWAU {
            id: fwau_id,
            iuoc_id: iuoc,
            avatar_id: avatar,
            quality_snapshot_bits: soul.quality_bits,
            intent_buf: IntentQueueSnapshot { len: 0 },
            bound_at,
            memory_clearance: MemoryClearance::IncarnationOnly,
        };
        let new_soul = IUOC {
            id: soul.id,
            quality_bits: soul.quality_bits,
            incarnations: soul.incarnations + 1,
            bound_fwau: Some(fwau_id),
            consent: soul.consent,
            prefs: soul.prefs,
        };
        map_put(&mut self.souls, iuoc.0, new_soul);
        map_put(&mut self.fwau_sessions, fwau_id.0, fwau);
        proof {
            assert forall|q: u128| q != iuoc.0 implies #[trigger] self.soul(q) == before.soul(q) by {
                assert(stored_at(self.souls@, q) == stored_at(before.souls@, q));
            }
            assert forall|q: u128| q != fwau_id.0 implies #[trigger] self.session(q) == (if v.bound_fwau
                == Some(q) {
                None
            } else {
                before.session(q)
            }) by {
                assert(stored_at(self.fwau_sessions@, q) == stored_at(mid, q));
            }
            assert(self.soul(iuoc.0) == Some(
                rebound(v, Some(fwau_id.0), (v.incarnations + 1) as u32, v.quality_bits),
            ));
        }
        Ok(fwau_id)
    }

    /// Ends session `fwau_id` without recording a life (a shard cross). The soul is
    /// left unbound. Returns the soul of the session, or `None` for an unknown session.
    pub fn release_live_fwau(&mut self, fwau_id: FwauId) -> (r: Option<IuocId>)
        requires
            old(self).wf(),
        ensures
            final(self).wf(),
            final(self).packets_unchanged(old(self)),
            match old(self).session(fwau_id.0) {
                None => {
                    &&& r is None
                    &&& forall|q: u128| #[trigger] final(self).soul(q) == old(self).soul(q)
                    &&& final(self).sessions_unchanged(old(self))
                },
                Some(f) => {
                    &&& r == Some(f.iuoc_id)
                    &&& final(self).session(fwau_id.0) is None
                    &&& forall|q: u128|
                        q != fwau_id.0 ==> #[trigger] final(self).session(q) == old(self).session(q)
                    &&& final(self).souls_unchanged_but(old(self), f.iuoc_id.0)
                    &&& final(self).soul(f.iuoc_id.0) == match old(self).soul(f.iuoc_id.0) {
                        Some(v) => Some(rebound(v, None, v.incarnations, v.quality_bits)),
                        None => None::<SoulView>,
                    }
                },
            },
    {
        let ghost before = *self;
        let fwau = match map_take(&mut self.fwau_sessions, fwau_id.0) {
            Some(f) => f,
            None => return None,
        };
        let k = fwau.iuoc_id.0;
        match map_take(&mut self.souls, k) {
            Some(soul) => {
                let new_soul = IUOC {
                    id: soul.id,
                    quality_bits: soul.quality_bits,
                    incarnations: soul.incarnations,
                    bound_fwau: None,
                    consent: soul.consent,
                    prefs: soul.prefs,
                };
                map_put(&mut self.souls, k, new_soul);
            },
            None => {},
        }
        proof {
            assert forall|q: u128| q != k implies #[trigger] self.soul(q) == before.soul(q) by {
                assert(stored_at(self.souls@, q) == stored_at(before.souls@, q));
            }
        }
        Some(fwau.iuoc_id)
    }

    /// Ends session `fwau_id` and records the life as an experience packet: the soul
    /// is unbound and takes `quality_after_bits` as its quality. `None`, with nothing
    /// recorded, for an unknown session; for a session whose soul is gone the session
    /// still ends.
    pub fn merge_fwau(
        &mut self,
        fwau_id: FwauId,
        frame: FrameId,
        unbound_at: Tick,
        death_cause: &str,
        quality_after_bits: u32,
    ) -> (r: Option<ExperiencePacket>)
        requires
            old(self).wf(),
        ensures
            final(self).wf(),
            match old(self).session(fwau_id.0) {
                None => {
                    &&& r is None
                    &&& forall|q: u128| #[trigger] final(self).soul(q) == old(self).soul(q)
                    &&& final(self).sessions_unchanged(old(self))
                    &&& final(self).packets_unchanged(old(self))
                },
                Some(f) => {
                    &&& final(self).session(fwau_id.0) is None
                    &&& forall|q: u128|
                        q != fwau_id.0 ==> #[trigger] final(self).session(q) == old(self).session(q)
                    &&& forall|q: u128| #[trigger] final(self).soul(q) == old(self).soul(q) || q == f.iuoc_id.0
                    &&& match old(self).soul(f.iuoc_id.0) {
                        None => {
                            &&& r is None
                            &&& final(self).soul(f.iuoc_id.0) is None
                            &&& final(self).packets_unchanged(old(self))
                        },
                        Some(v) => {
                            &&& final(self).soul(f.iuoc_id.0) == Some(
                                rebound(v, None, v.incarnations, quality_after_bits),
                            )
                            &&& r matches Some(p) && {
                                &&& p@.iuoc == f.iuoc_id.0
                                &&& p@.avatar == f.avatar_id.index as u64
                                &&& p@.frame == frame.0
                                &&& p@.bound_at == f.bound_at.0
                                &&& p@.unbound_at == unbound_at.0
                                &&& p@.summary == life_summary(v.incarnations)
                                &&& p@.death_cause == death_cause@
                                &&& final(self).packets_of(f.iuoc_id.0) == old(self).packets_of(
                                    f.iuoc_id.0,
                                ).push(p@)
                            }
                            &&& forall|q: u128|
                                q != f.iuoc_id.0 ==> #[trigger] final(self).packets_of(q)
                                    == old(self).packets_of(q)
                        },
                    }
                },
            },
    {
        let ghost before = *self;
        let fwau = match map_take(&mut self.fwau_sessions, fwau_id.0) {
            Some(f) => f,
            None => return None,
        };
        let k = fwau.iuoc_id.0;
        let soul = match map_take(&mut self.souls, k) {
            Some(s) => s,
            None => {
                proof {
                    assert forall|q: u128| #[trigger] self.soul(q) == before.soul(q) || q == k by {
                        assert(stored_at(self.souls@, q) == stored_at(before.souls@, q) || q == k);
                    }
                }
                return None;
            },
        };
        let ghost v = soul@;
        let mut summary = String::from_str("Life ");
        push_decimal(&mut summary, soul.incarnations as u128);
        summary.append(" ended");
        proof {
            reveal_strlit("Life ");
            reveal_strlit(" ended");
        }
        let packet = ExperiencePacket {
            id: PacketId(new_ulid()),
            iuoc: fwau.iuoc_id,
            avatar: AvatarId(fwau.avatar_id.index as u64),
            frame,
            bound_at: fwau.bound_at,
            unbound_at,
            summary,
            death_cause: String::from_str(death_cause),
        };
        let new_soul = IUOC {
            id: soul.id,
            quality_bits: quality_after_bits,
            incarnations: soul.incarnations,
            bound_fwau: None,
            consent: soul.consent,
            prefs: soul.prefs,
        };
        map_put(&mut self.souls, k, new_soul);
        let out = packet.clone();
        let ghost pv = packet@;
        let mut list = match map_take(&mut self.packets, k) {
            Some(l) => l,
            None => Vec::new(),
        };
        let ghost old_list = list@;
        list.push(packet);
        map_put(&mut self.packets, k, list);
        proof {
            assert forall|q: u128| #[trigger] self.soul(q) == before.soul(q) || q == k by {
                assert(stored_at(self.souls@, q) == stored_at(before.souls@, q) || q == k);
            }
            assert(packet_views(old_list.push(packet)) =~= packet_views(old_list).push(pv));
            assert(before.packets_of(k) == packet_views(old_list));
            assert forall|q: u128| q != k implies #[trigger] self.packets_of(q) == before.packets_of(q) by {
                assert(stored_at(self.packets@, q) == stored_at(before.packets@, q));
            }
        }
        Some(out)
    }
    /// Stores souls and packet lists read back from an archive, in order; a later
    /// entry for the same soul replaces an earlier one.
    pub fn hydrate_from(&mut self, souls: Vec<IUOC>, packets: Vec<(IuocId, Vec<ExperiencePacket>)>)
        requires
            old(self).wf(),
        ensures
            final(self).wf(),
            forall|q: u128| #[trigger] final(self).soul(q) == loaded_soul(souls@, q, old(self).soul(q)),
            forall|q: u128|
                #[trigger] final(self).packets_of(q) == loaded_packets(packets@, q, old(self).packets_of(q)),
            final(self).sessions_unchanged(old(self)),
    {
        let ghost before = *self;
        let ghost all_souls = souls@;
        for soul in it: souls
            invariant
                self.wf(),
                it.seq() == all_souls,
                forall|q: u128| #[trigger] self.soul(q) == loaded_soul(all_souls.take(it.index() as int), q, before.soul(q)),
                self.packets_unchanged(&before),
                self.sessions_unchanged(&before),
        {
            let ghost i = it.index() as int;
            proof {
                assert(all_souls.take(i + 1).drop_last() =~= all_souls.take(i));
                assert(all_souls.take(i + 1).last() == soul);
            }
            self.insert_soul(soul);
        }
        proof {
            assert(all_souls.take(all_souls.len() as int) =~= all_souls);
        }
        let ghost mid = *self;
        let ghost all_packets = packets@;
        for entry in it: packets
            invariant
                self.wf(),
                it.seq() == all_packets,
                forall|q: u128|
                    #[trigger] self.packets_of(q) == loaded_packets(all_packets.take(it.index() as int), q, mid.packets_of(q)),
                forall|q: u128| #[trigger] self.soul(q) == mid.soul(q),
                self.sessions_unchanged(&before),
        {
            let ghost i = it.index() as int;
            let ghost pv = packet_views(entry.1@);
            let ghost k = entry.0.0;
            proof {
                assert(all_packets.take(i + 1).drop_last() =~= all_packets.take(i));
                assert(all_packets.take(i + 1).last() == entry);
            }
            let (id, list) = entry;
            let ghost before_step = *self;
            proof {
                assert forall|q: u128| #[trigger] before_step.packets_of(q) == loaded_packets(all_packets.take(i), q, mid.packets_of(q)) by {}
            }
            map_put(&mut self.packets, id.0, list);
            proof {
                assert(self.souls@ == before_step.souls@);
                assert(self.fwau_sessions@ == before_step.fwau_sessions@);
                assert forall|q: u128| #[trigger] self.soul(q) == mid.soul(q) by {
                    assert(self.soul(q) == before_step.soul(q));
                }
                assert forall|q: u128| #[trigger] self.session(q) == before.session(q) by {
                    assert(self.session(q) == before_step.session(q));
                }
                let t = all_packets.take(i + 1);
                assert(t.last().0.0 == k);
                assert(t.drop_last() =~= all_packets.take(i));
                assert forall|q: u128| #[trigger] self.packets_of(q) == loaded_packets(t, q, mid.packets_of(q)) by {
                    if q == k {
                        assert(stored_at(self.packets@, q) == Some(entry.1));
                        assert(loaded_packets(t, q, mid.packets_of(q)) == pv);
                    } else {
                        assert(stored_at(self.packets@, q) == stored_at(before_step.packets@, q));
                        assert(before_step.packets_of(q) == loaded_packets(all_packets.take(i), q, mid.packets_of(q)));
                    }
                }
            }
        }
        proof {
            assert(all_packets.take(all_packets.len() as int) =~= all_packets);
        }
    }
    /// Records `pact` in the consent graph of soul `from`.
    pub fn add_consent_pact(&mut self, from: IuocId, pact: String) -> (r: Result<(), BindError>)
        requires
            old(self).wf(),
        ensures
            final(self).wf(),
            final(self).sessions_unchanged(old(self)),
            final(self).packets_unchanged(old(self)),
            final(self).souls_unchanged_but(old(self), from.0),
            match old(self).soul(from.0) {
                None => r == Err::<(), BindError>(BindError::NotFound) && final(self).soul(from.0) is None,
                Some(v) => r == Ok::<(), BindError>(()) && final(self).soul(from.0) == Some(
                    SoulView { pacts: v.pacts.push(pact), ..v },
                ),
            },
    {
        let ghost before = *self;
        match map_take(&mut self.souls, from.0) {
            Some(soul) => {
                let mut pacts = soul.consent.pacts;
                pacts.push(pact);
                let new_soul = IUOC {
                    id: soul.id,
                    quality_bits: soul.quality_bits,
                    incarnations: soul.incarnations,
                    bound_fwau: soul.bound_fwau,
                    consent: ConsentGraph { pacts },
                    prefs: soul.prefs,
                };
                map_put(&mut self.souls, from.0, new_soul);
                proof {
                    assert forall|q: u128| q != from.0 implies #[trigger] self.soul(q) == before.soul(q) by {
                        assert(stored_at(self.souls@, q) == stored_at(before.souls@, q));
                    }
                }
                Ok(())
            },
            None => {
                proof {
                    assert forall|q: u128| q != from.0 implies #[trigger] self.soul(q) == before.soul(q) by {
                        assert(stored_at(self.souls@, q) == stored_at(before.souls@, q));
                    }
                }
                Err(BindError::NotFound)
            },
        }
    }

    /// Whether soul `from` holds an unexpired pact letting `target` act in `scope`
    /// at tick `now`.
    /// The soul `from` holds a pact granting `target` consent in `scope` at `now`.
    pub open spec fn grants_pact(&self, from: IuocId, target: IuocId, scope: Seq<char>, now: u64) -> bool {
        match self.soul(from.0) {
            Some(v) => exists|k: int| 0 <= k < v.pacts.len() && pact_grants(#[trigger] v.pacts[k]@, scope, target.0, now),
            None => false,
        }
    }

    /// `stamp` names, unexpired at `now`, a pact its target soul granted `helper`.
    pub open spec fn stamp_verifies(&self, helper: IuocId, stamp: ConsentStamp, now: u64) -> bool {
        now <= stamp.expires_tick && match self.soul(stamp.target) {
            Some(v) => exists|k: int| 0 <= k < v.pacts.len() && #[trigger] v.pacts[k]@ == pact_text(stamp.scope@, helper.0, stamp.expires_tick),
            None => false,
        }
    }

    pub fn has_consent_pact(&self, from: IuocId, target: IuocId, scope: &str, now: u64) -> (r: bool)
        ensures
            r == self.grants_pact(from, target, scope@, now),
    {
        let soul = match map_get(&self.souls, from.0) {
            Some(s) => s,
            None => return false,
        };
        let prefix = pact_prefix_string(scope, target.0);
        let pacts = &soul.consent.pacts;
        let mut k: usize = 0;
        while k < pacts.len()
            invariant
                k <= pacts@.len(),
                pacts@ == soul.consent.pacts@,
                self.soul(from.0) == Some(soul@),
                prefix@ == pact_prefix(scope@, target.0),
                forall|j: int| 0 <= j < k ==> !pact_grants(#[trigger] pacts@[j]@, scope@, target.0, now),
            decreases pacts@.len() - k,
        {
            let found = pact_expiry(pacts[k].as_str(), prefix.as_str());
            proof {
                assert forall|e: u64| #[trigger] pact_text(scope@, target.0, e) == prefix@ + decimal(e as nat) by {}
            }
            match found {
                Some(e) => {
                    if now <= e {
                        proof {
                            assert(pacts@[k as int]@ == pact_text(scope@, target.0, e));
                            assert(pact_grants(pacts@[k as int]@, scope@, target.0, now));
                            assert(soul@.pacts[k as int] == pacts@[k as int]);
                        }
                        return true;
                    }
                    proof {
                        assert forall|e2: u64| pacts@[k as int]@ == #[trigger] pact_text(scope@, target.0, e2) implies e2 == e by {
                            if e2 != e {
                                lemma_decimal_canonical(e as nat);
                                lemma_decimal_canonical(e2 as nat);
                                assert((prefix@ + decimal(e as nat)).skip(prefix@.len() as int) =~= decimal(e as nat));
                                assert((prefix@ + decimal(e2 as nat)).skip(prefix@.len() as int) =~= decimal(e2 as nat));
                            }
                        }
                    }
                },
                None => {},
            }
            k = k + 1;
        }
        false
    }

    /// Whether a consent stamp carried by `helper` is good at tick `now`: it has not
    /// expired, and its soul holds the very pact that names `helper`, the stamp's
    /// scope and its expiry.
    pub fn verify_consent_stamp(&self, helper: IuocId, stamp: &ConsentStamp, now: u64) -> (r: bool)
        ensures
            r == self.stamp_verifies(helper, *stamp, now),
    {
        if now > stamp.expires_tick {
            return false;
        }
        let soul = match map_get(&self.souls, stamp.target) {
            Some(s) => s,
            None => return false,
        };
        let expected = pact_string(stamp.scope.as_str(), helper, stamp.expires_tick);
        let pacts = &soul.consent.pacts;
        let mut k: usize = 0;
        while k < pacts.len()
            invariant
                k <= pacts@.len(),
                pacts@ == soul.consent.pacts@,
                self.soul(stamp.target) == Some(soul@),
                now <= stamp.expires_tick,
                expected@ == pact_text(stamp.scope@, helper.0, stamp.expires_tick),
                forall|j: int| 0 <= j < k ==> #[trigger] pacts@[j]@ != expected@,
            decreases pacts@.len() - k,
        {
            if pacts[k] == expected {
                proof {
                    assert(soul@.pacts[k as int] == pacts@[k as int]);
                }
                return true;
            }
            k = k + 1;
        }
        false
    }
}

/// Whether an assist has consent: practice on an AI target needs none where the
/// ruleset allows it; otherwise the helper must be bound to a soul, and a stamp sent
/// with the assist must verify at `stamp_now`, or, with no stamp, the target soul must
/// hold an `assist` pact for the helper at `pact_now`.
pub fn assist_consent(
    registry: &IuocRegistry,
    is_ai: bool,
    ai_practice: bool,
    helper: Option<IuocId>,
    stamp: Option<&ConsentStamp>,
    target: Option<IuocId>,
    stamp_now: u64,
    pact_now: u64,
) -> (r: bool)
    ensures
        r == (if is_ai && ai_practice {
            true
        } else {
            match helper {
                Some(h) => match stamp {
                    Some(s) => registry.stamp_verifies(h, *s, stamp_now),
                    None => match target {
                        Some(t) => registry.grants_pact(t, h, "assist"@, pact_now),
                        None => false,
                    },
                },
                None => false,
            }
        }),
{
    if is_ai && ai_practice {
        return true;
    }
    match helper {
        Some(h) => match stamp {
            Some(s) => registry.verify_consent_stamp(h, s, stamp_now),
            None => match target {
                Some(t) => registry.has_consent_pact(t, h, "assist", pact_now),
                None => false,
            },
        },
        None => false,
    }
}

} // verus!

verus! {

/// A pact recorded for `target` in `scope` until tick `e` grants consent at every
/// tick up to `e`, and a stamp naming it verifies for `target` at those ticks:
/// what `add_consent_pact` leaves is what `has_consent_pact` and
/// `verify_consent_stamp` find.
pub proof fn lemma_recorded_pact_grants(
    v: SoulView,
    pact: String,
    scope: Seq<char>,
    target: u128,
    e: u64,
    now: u64,
)
    requires
        pact@ == pact_text(scope, target, e),
        now <= e,
    ensures
        exists|k: int|
            0 <= k < v.pacts.push(pact).len() && pact_grants(
                #[trigger] v.pacts.push(pact)[k]@,
                scope,
                target,
                now,
            ),
        exists|k: int|
            0 <= k < v.pacts.push(pact).len() && #[trigger] v.pacts.push(pact)[k]@ == pact_text(
                scope,
                target,
                e,
            ),
{
    let k = v.pacts.len() as int;
    assert(v.pacts.push(pact)[k] == pact);
    assert(pact_grants(v.pacts.push(pact)[k]@, scope, target, now));
}

} // verus!

verus! {

/// Binding a session and then releasing it ends that session, leaves the soul unbound
/// with one incarnation more, and returns the soul. The registries are related as
/// `bind_fwau` and `release_live_fwau` relate them.
pub proof fn lemma_bind_then_release(
    r0: IuocRegistry,
    r1: IuocRegistry,
    r2: IuocRegistry,
    iuoc: IuocId,
    fwau_id: FwauId,
    avatar: EntityRef,
    bound_at: Tick,
    released: Option<IuocId>,
    v: SoulView,
)
    requires
        r0.soul(iuoc.0) == Some(v),
        r1.soul(iuoc.0) == Some(
            rebound(v, Some(fwau_id.0), (v.incarnations + 1) as u32, v.quality_bits),
        ),
        r1.session(fwau_id.0) == Some(bound_session(fwau_id, iuoc, avatar, v.quality_bits, bound_at)),
        match r1.session(fwau_id.0) {
            None => released is None,
            Some(f) => {
                &&& released == Some(f.iuoc_id)
                &&& r2.session(fwau_id.0) is None
                &&& r2.soul(f.iuoc_id.0) == match r1.soul(f.iuoc_id.0) {
                    Some(w) => Some(rebound(w, None, w.incarnations, w.quality_bits)),
                    None => None::<SoulView>,
                }
            },
        },
    ensures
        released == Some(iuoc),
        r2.session(fwau_id.0) is None,
        r2.soul(iuoc.0) == Some(rebound(v, None, (v.incarnations + 1) as u32, v.quality_bits)),
{
}

} // verus!
