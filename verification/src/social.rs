use crate::gameplay::VerbFailure;
use crate::text::{decimal, push_decimal};
use vstd::prelude::*;
use vstd::utf8::encode_utf8;

verus! {

/// Most speech events a frame keeps.
pub const RECENT_SPEAKS: usize = 32;

/// Longest speech accepted, in bytes after trimming.
pub const MAX_SPEECH_BYTES: usize = 120;

#[derive(Clone, Debug)]
pub struct SpeakEvent {
    pub fwau: u128,
    pub text: String,
    pub tick: u64,
}

#[derive(Clone, Debug)]
pub struct SpeakResult {
    pub heard: bool,
    pub listeners: usize,
    pub message: String,
}

/// A character with the Unicode `White_Space` property, which `char::is_whitespace`
/// tests and `str::trim` removes.
pub open spec fn is_white_space(c: char) -> bool {
    let v = c as u32;
    ||| 0x9 <= v <= 0xd
    ||| v == 0x20
    ||| v == 0x85
    ||| v == 0xa0
    ||| v == 0x1680
    ||| 0x2000 <= v <= 0x200a
    ||| v == 0x2028
    ||| v == 0x2029
    ||| v == 0x202f
    ||| v == 0x205f
    ||| v == 0x3000
}

/// The text without its leading whitespace.
pub open spec fn trim_start(s: Seq<char>) -> Seq<char>
    decreases s.len(),
{
    if s.len() > 0 && is_white_space(s[0]) {
        trim_start(s.drop_first())
    } else {
        s
    }
}

/// The text without its trailing whitespace.
pub open spec fn trim_end(s: Seq<char>) -> Seq<char>
    decreases s.len(),
{
    if s.len() > 0 && is_white_space(s.last()) {
        trim_end(s.drop_last())
    } else {
        s
    }
}

/// The text with leading and trailing whitespace removed.
pub open spec fn trimmed_text(s: Seq<char>) -> Seq<char> {
    trim_end(trim_start(s))
}

/// The length in bytes that `str::len` reports for a text.
pub open spec fn byte_len(s: Seq<char>) -> usize {
    encode_utf8(s).len() as usize
}

/// Speech of one to `MAX_SPEECH_BYTES` bytes.
pub open spec fn speech_fits(t: Seq<char>) -> bool {
    1 <= byte_len(t) <= MAX_SPEECH_BYTES
}

proof fn lemma_trim_start_slice(s: Seq<char>)
    ensures
        exists|i: int| 0 <= i <= s.len() && trim_start(s) == s.subrange(i, s.len() as int),
    decreases s.len(),
{
    if s.len() > 0 && is_white_space(s[0]) {
        lemma_trim_start_slice(s.drop_first());
        let i = choose|i: int|
            0 <= i <= s.drop_first().len() && trim_start(s.drop_first()) == s.drop_first().subrange(
                i,
                s.drop_first().len() as int,
            );
        assert(s.drop_first().subrange(i, s.drop_first().len() as int) =~= s.subrange(
            i + 1,
            s.len() as int,
        ));
    } else {
        assert(s.subrange(0, s.len() as int) =~= s);
    }
}

proof fn lemma_trim_end_slice(s: Seq<char>)
    ensures
        exists|j: int| 0 <= j <= s.len() && trim_end(s) == s.subrange(0, j),
    decreases s.len(),
{
    if s.len() > 0 && is_white_space(s.last()) {
        lemma_trim_end_slice(s.drop_last());
        let j = choose|j: int|
            0 <= j <= s.drop_last().len() && trim_end(s.drop_last()) == s.drop_last().subrange(0, j);
        assert(s.drop_last().subrange(0, j) =~= s.subrange(0, j));
    } else {
        assert(s.subrange(0, s.len() as int) =~= s);
    }
}

/// Trimming gives a contiguous piece of the text.
pub proof fn lemma_trimmed_is_slice(s: Seq<char>)
    ensures
        exists|i: int, j: int|
            0 <= i <= j <= s.len() && #[trigger] trimmed_text(s) == s.subrange(i, j),
{
    lemma_trim_start_slice(s);
    let i = choose|i: int| 0 <= i <= s.len() && trim_start(s) == s.subrange(i, s.len() as int);
    let t = trim_start(s);
    lemma_trim_end_slice(t);
    let j = choose|j: int| 0 <= j <= t.len() && trim_end(t) == t.subrange(0, j);
    assert(t.subrange(0, j) =~= s.subrange(i, i + j));
}

/// `str::trim`: the text without leading and trailing whitespace, where whitespace is
/// what has the Unicode `White_Space` property. The result is a slice of the text
/// (`lemma_trimmed_is_slice`).
#[verifier::external_body]
fn trim_text(text: &str) -> (r: &str)
    ensures
        r@ == trimmed_text(text@),
{
    text.trim()
}

/// Checks speech that was already trimmed: it must be one to 120 bytes, and a
/// consent stamp sent with it must not have been refused.
pub fn speak_check_trimmed(trimmed: &str, stamp_refused: bool) -> (r: Result<(), VerbFailure>)
    ensures
        r == (if trimmed.len() == 0 || trimmed.len() > MAX_SPEECH_BYTES {
            Err(VerbFailure::BadSpeech)
        } else if stamp_refused {
            Err(VerbFailure::BadStamp)
        } else {
            Ok(())
        }),
{
    let n = trimmed.len();
    if n == 0 || n > MAX_SPEECH_BYTES {
        Err(VerbFailure::BadSpeech)
    } else if stamp_refused {
        Err(VerbFailure::BadStamp)
    } else {
        Ok(())
    }
}

/// Decides whether a frame broadcasts `text`: the verb must be enabled, and the
/// trimmed text must pass `speak_check_trimmed`. On success gives the trimmed text.
pub fn speak_check(enabled: bool, text: &str, stamp_refused: bool) -> (r: Result<String, VerbFailure>)
    ensures
        !enabled ==> r == Err::<String, VerbFailure>(VerbFailure::Disabled),
        enabled ==> match r {
            Ok(t) => t@ == trimmed_text(text@) && speech_fits(trimmed_text(text@)) && !stamp_refused,
            Err(e) => if !speech_fits(trimmed_text(text@)) {
                e == VerbFailure::BadSpeech
            } else {
                stamp_refused && e == VerbFailure::BadStamp
            },
        },
{
    if !enabled {
        return Err(VerbFailure::Disabled);
    }
    let t = trim_text(text);
    match speak_check_trimmed(t, stamp_refused) {
        Ok(()) => Ok(String::from_str(t)),
        Err(e) => Err(e),
    }
}

/// The reply to speech that was broadcast.
pub open spec fn speak_text(listeners: usize) -> Seq<char> {
    if listeners > 0 {
        decimal(listeners as nat) + " nearby minds heard."@
    } else {
        "Words dissipated. No observers in range."@
    }
}

pub fn speak_message(listeners: usize) -> (s: String)
    ensures
        s@ == speak_text(listeners),
{
    if listeners > 0 {
        let mut s = String::new();
        push_decimal(&mut s, listeners as u128);
        s.append(" nearby minds heard.");
        s
    } else {
        String::from_str("Words dissipated. No observers in range.")
    }
}

/// Appends `ev` to a frame's recent speech, dropping the oldest beyond 32.
pub fn push_recent_speak(recent: &mut Vec<SpeakEvent>, ev: SpeakEvent)
    ensures
        old(recent)@.len() < RECENT_SPEAKS ==> final(recent)@ == old(recent)@.push(ev),
        old(recent)@.len() >= RECENT_SPEAKS ==> final(recent)@ == old(recent)@.push(ev).drop_first(),
{
    recent.push(ev);
    if recent.len() > RECENT_SPEAKS {
        recent.remove(0);
        proof {
            assert(final(recent)@ =~= old(recent)@.push(ev).drop_first());
        }
    }
}

/// Speech kept by a frame that only ever appends through `push_recent_speak` never
/// exceeds 32 events.
pub proof fn lemma_recent_bounded(before: Seq<SpeakEvent>, ev: SpeakEvent)
    requires
        before.len() <= RECENT_SPEAKS,
    ensures
        before.len() < RECENT_SPEAKS ==> before.push(ev).len() <= RECENT_SPEAKS,
        before.len() >= RECENT_SPEAKS ==> before.push(ev).drop_first().len() <= RECENT_SPEAKS,
{
}

} // verus!
