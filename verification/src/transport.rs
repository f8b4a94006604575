use crate::text::same_text;
use vstd::bytes::*;
use vstd::prelude::*;
use vstd::slice::slice_subrange;

verus! {

/// First four bytes (little endian) of every frame and datagram.
pub const WIRE_MAGIC: u32 = 0x54424301;

/// Length of a move datagram: magic(4) + fwau(16) + tick(8) + dx(4) + dy(4).
pub const MOVE_DATAGRAM_LEN: usize = 36;

/// Bytes of a move datagram; `dx` and `dy` are the bit patterns of the `f32` deltas.
pub open spec fn move_datagram(fwau: u128, tick: u64, dx_bits: u32, dy_bits: u32) -> Seq<u8> {
    spec_u32_to_le_bytes(WIRE_MAGIC) + spec_u128_to_le_bytes(fwau) + spec_u64_to_le_bytes(tick)
        + spec_u32_to_le_bytes(dx_bits) + spec_u32_to_le_bytes(dy_bits)
}

/// What a buffer decodes to as a move datagram.
pub open spec fn move_datagram_fields(buf: Seq<u8>) -> Option<(u128, u64, u32, u32)> {
    if buf.len() < MOVE_DATAGRAM_LEN {
        None
    } else if spec_u32_from_le_bytes(buf.subrange(0, 4)) != WIRE_MAGIC {
        None
    } else {
        Some(
            (
                spec_u128_from_le_bytes(buf.subrange(4, 20)),
                spec_u64_from_le_bytes(buf.subrange(20, 28)),
                spec_u32_from_le_bytes(buf.subrange(28, 32)),
                spec_u32_from_le_bytes(buf.subrange(32, 36)),
            ),
        )
    }
}

/// Encodes an unreliable move datagram.
pub fn encode_move_datagram(fwau: u128, tick: u64, dx_bits: u32, dy_bits: u32) -> (out: Vec<u8>)
    ensures
        out@ == move_datagram(fwau, tick, dx_bits, dy_bits),
        out@.len() == MOVE_DATAGRAM_LEN,
{
    let mut out = u32_to_le_bytes(WIRE_MAGIC);
    let mut a = u128_to_le_bytes(fwau);
    let mut b = u64_to_le_bytes(tick);
    let mut c = u32_to_le_bytes(dx_bits);
    let mut d = u32_to_le_bytes(dy_bits);
    out.append(&mut a);
    out.append(&mut b);
    out.append(&mut c);
    out.append(&mut d);
    out
}

/// Decodes a move datagram: `None` when it is shorter than 36 bytes or its magic is wrong.
pub fn decode_move_datagram(buf: &[u8]) -> (r: Option<(u128, u64, u32, u32)>)
    ensures
        r == move_datagram_fields(buf@),
{
    if buf.len() < MOVE_DATAGRAM_LEN {
        return None;
    }
    let magic = u32_from_le_bytes(slice_subrange(buf, 0, 4));
    if magic != WIRE_MAGIC {
        return None;
    }
    let fwau = u128_from_le_bytes(slice_subrange(buf, 4, 20));
    let tick = u64_from_le_bytes(slice_subrange(buf, 20, 28));
    let dx = u32_from_le_bytes(slice_subrange(buf, 28, 32));
    let dy = u32_from_le_bytes(slice_subrange(buf, 32, 36));
    Some((fwau, tick, dx, dy))
}

/// A reliable-stream frame: magic, the body's length (its low 32 bits), then the body.
pub open spec fn reliable_frame(body: Seq<u8>) -> Seq<u8> {
    spec_u32_to_le_bytes(WIRE_MAGIC) + spec_u32_to_le_bytes((body.len() % 0x1_0000_0000) as u32)
        + body
}

/// Why a reliable frame could not be read.
#[derive(Clone, Copy, Debug, PartialEq, Eq, Structural)]
pub enum FrameError {
    TooShort,
    BadMagic,
    Incomplete,
}

impl FrameError {
    pub open spec fn message_text(self) -> Seq<char> {
        match self {
            FrameError::TooShort => "too short"@,
            FrameError::BadMagic => "bad magic"@,
            FrameError::Incomplete => "incomplete"@,
        }
    }

    pub fn message(&self) -> (s: &'static str)
        ensures
            s@ == self.message_text(),
    {
        match self {
            FrameError::TooShort => "too short",
            FrameError::BadMagic => "bad magic",
            FrameError::Incomplete => "incomplete",
        }
    }
}

/// What a buffer yields as a reliable frame: the body, or why not.
pub open spec fn reliable_body(buf: Seq<u8>) -> Result<Seq<u8>, FrameError> {
    if buf.len() < 8 {
        Err(FrameError::TooShort)
    } else if spec_u32_from_le_bytes(buf.subrange(0, 4)) != WIRE_MAGIC {
        Err(FrameError::BadMagic)
    } else if buf.len() < 8 + spec_u32_from_le_bytes(buf.subrange(4, 8)) {
        Err(FrameError::Incomplete)
    } else {
        Ok(buf.subrange(8, 8 + spec_u32_from_le_bytes(buf.subrange(4, 8))))
    }
}

/// Frames an already serialized body for a reliable stream.
pub fn encode_reliable_frame(body: &[u8]) -> (out: Vec<u8>)
    ensures
        out@ == reliable_frame(body@),
{
    let n: u64 = body.len() as u64;
    #[verifier::truncate]
    let len: u32 = n as u32;
    proof {
        assert(len == (n % 0x1_0000_0000) as u32) by (bit_vector)
            requires
                len == n as u32,
        ;
    }
    let mut out = u32_to_le_bytes(WIRE_MAGIC);
    let mut l = u32_to_le_bytes(len);
    let mut b = vstd::slice::slice_to_vec(body);
    out.append(&mut l);
    out.append(&mut b);
    out
}

/// Reads the body of a reliable frame; bytes after it are ignored.
pub fn decode_reliable_frame(buf: &[u8]) -> (r: Result<Vec<u8>, FrameError>)
    ensures
        match r {
            Ok(b) => reliable_body(buf@) == Ok::<Seq<u8>, FrameError>(b@),
            Err(e) => reliable_body(buf@) == Err::<Seq<u8>, FrameError>(e),
        },
{
    if buf.len() < 8 {
        return Err(FrameError::TooShort);
    }
    let magic = u32_from_le_bytes(slice_subrange(buf, 0, 4));
    if magic != WIRE_MAGIC {
        return Err(FrameError::BadMagic);
    }
    let len = u32_from_le_bytes(slice_subrange(buf, 4, 8)) as usize;
    if buf.len() - 8 < len {
        return Err(FrameError::Incomplete);
    }
    Ok(vstd::slice::slice_to_vec(slice_subrange(buf, 8, 8 + len)))
}

/// A move datagram decodes to the fields it was encoded from, whatever follows it.
pub proof fn lemma_move_datagram_roundtrip(
    fwau: u128,
    tick: u64,
    dx_bits: u32,
    dy_bits: u32,
    trailing: Seq<u8>,
)
    ensures
        move_datagram_fields(move_datagram(fwau, tick, dx_bits, dy_bits) + trailing) == Some(
            (fwau, tick, dx_bits, dy_bits),
        ),
{
    lemma_auto_spec_u32_to_from_le_bytes();
    lemma_auto_spec_u64_to_from_le_bytes();
    lemma_auto_spec_u128_to_from_le_bytes();
    let b = move_datagram(fwau, tick, dx_bits, dy_bits) + trailing;
    assert(b.subrange(0, 4) =~= spec_u32_to_le_bytes(WIRE_MAGIC));
    assert(b.subrange(4, 20) =~= spec_u128_to_le_bytes(fwau));
    assert(b.subrange(20, 28) =~= spec_u64_to_le_bytes(tick));
    assert(b.subrange(28, 32) =~= spec_u32_to_le_bytes(dx_bits));
    assert(b.subrange(32, 36) =~= spec_u32_to_le_bytes(dy_bits));
}

/// A framed body reads back as itself, whatever follows the frame, as long as its
/// length fits the 32-bit length field.
pub proof fn lemma_reliable_frame_roundtrip(body: Seq<u8>, trailing: Seq<u8>)
    requires
        body.len() <= u32::MAX,
    ensures
        reliable_body(reliable_frame(body) + trailing) == Ok::<Seq<u8>, FrameError>(body),
{
    lemma_auto_spec_u32_to_from_le_bytes();
    let b = reliable_frame(body) + trailing;
    assert(b.subrange(0, 4) =~= spec_u32_to_le_bytes(WIRE_MAGIC));
    assert(b.subrange(4, 8) =~= spec_u32_to_le_bytes((body.len() % 0x1_0000_0000) as u32));
    assert(b.subrange(8, 8 + body.len() as int) =~= body);
}

} // verus!

verus! {

/// The kinds of reliable message a gateway answers.
#[derive(Clone, Copy, Debug, PartialEq, Eq, Structural)]
pub enum WireKind {
    Login,
    Move,
    Snapshot,
    Attack,
    Interact,
    Assist,
    Speak,
    Psi,
    Consent,
    Blink,
    Handoff,
    Unknown,
}

/// The kind a message's `kind` text names.
pub open spec fn wire_kind_of(kind: Seq<char>) -> WireKind {
    if kind == "login"@ {
        WireKind::Login
    } else if kind == "move"@ {
        WireKind::Move
    } else if kind == "snapshot"@ {
        WireKind::Snapshot
    } else if kind == "attack"@ {
        WireKind::Attack
    } else if kind == "interact"@ {
        WireKind::Interact
    } else if kind == "assist"@ {
        WireKind::Assist
    } else if kind == "speak"@ {
        WireKind::Speak
    } else if kind == "psi"@ {
        WireKind::Psi
    } else if kind == "consent"@ {
        WireKind::Consent
    } else if kind == "blink"@ {
        WireKind::Blink
    } else if kind == "handoff"@ {
        WireKind::Handoff
    } else {
        WireKind::Unknown
    }
}

/// Dispatches on a reliable message's kind.
pub fn wire_kind(kind: &str) -> (r: WireKind)
    ensures
        r == wire_kind_of(kind@),
{
    if same_text(kind, "login") {
        WireKind::Login
    } else if same_text(kind, "move") {
        WireKind::Move
    } else if same_text(kind, "snapshot") {
        WireKind::Snapshot
    } else if same_text(kind, "attack") {
        WireKind::Attack
    } else if same_text(kind, "interact") {
        WireKind::Interact
    } else if same_text(kind, "assist") {
        WireKind::Assist
    } else if same_text(kind, "speak") {
        WireKind::Speak
    } else if same_text(kind, "psi") {
        WireKind::Psi
    } else if same_text(kind, "consent") {
        WireKind::Consent
    } else if same_text(kind, "blink") {
        WireKind::Blink
    } else if same_text(kind, "handoff") {
        WireKind::Handoff
    } else {
        WireKind::Unknown
    }
}

/// Each of the eleven message kinds the gateway handles is dispatched to its own kind.
pub proof fn lemma_named_kinds()
    ensures
        wire_kind_of("login"@) == WireKind::Login,
        wire_kind_of("move"@) == WireKind::Move,
        wire_kind_of("snapshot"@) == WireKind::Snapshot,
        wire_kind_of("attack"@) == WireKind::Attack,
        wire_kind_of("interact"@) == WireKind::Interact,
        wire_kind_of("assist"@) == WireKind::Assist,
        wire_kind_of("speak"@) == WireKind::Speak,
        wire_kind_of("psi"@) == WireKind::Psi,
        wire_kind_of("consent"@) == WireKind::Consent,
        wire_kind_of("blink"@) == WireKind::Blink,
        wire_kind_of("handoff"@) == WireKind::Handoff,
{
    reveal_strlit("login");
    reveal_strlit("move");
    reveal_strlit("snapshot");
    reveal_strlit("attack");
    reveal_strlit("interact");
    reveal_strlit("assist");
    reveal_strlit("speak");
    reveal_strlit("psi");
    reveal_strlit("consent");
    reveal_strlit("blink");
    reveal_strlit("handoff");
    assert("login"@.len() == 5 && "login"@[0] == 'l' && "login"@[1] == 'o');
    assert("move"@.len() == 4 && "move"@[0] == 'm' && "move"@[1] == 'o');
    assert("snapshot"@.len() == 8 && "snapshot"@[0] == 's' && "snapshot"@[1] == 'n');
    assert("attack"@.len() == 6 && "attack"@[0] == 'a' && "attack"@[1] == 't');
    assert("interact"@.len() == 8 && "interact"@[0] == 'i' && "interact"@[1] == 'n');
    assert("assist"@.len() == 6 && "assist"@[0] == 'a' && "assist"@[1] == 's');
    assert("speak"@.len() == 5 && "speak"@[0] == 's' && "speak"@[1] == 'p');
    assert("psi"@.len() == 3 && "psi"@[0] == 'p' && "psi"@[1] == 's');
    assert("consent"@.len() == 7 && "consent"@[0] == 'c' && "consent"@[1] == 'o');
    assert("blink"@.len() == 5 && "blink"@[0] == 'b' && "blink"@[1] == 'l');
    assert("handoff"@.len() == 7 && "handoff"@[0] == 'h' && "handoff"@[1] == 'a');
}

/// Any other text is an unknown kind, and two texts of the same known kind are the
/// same text.
pub proof fn lemma_unnamed_kinds_unknown(k: Seq<char>, j: Seq<char>)
    ensures
        k != "login"@ && k != "move"@ && k != "snapshot"@ && k != "attack"@ && k != "interact"@
            && k != "assist"@ && k != "speak"@ && k != "psi"@ && k != "consent"@ && k != "blink"@
            && k != "handoff"@ ==> wire_kind_of(k) == WireKind::Unknown,
        wire_kind_of(k) != WireKind::Unknown && wire_kind_of(k) == wire_kind_of(j) ==> k == j,
{
    lemma_named_kinds();
}

} // verus!
