use vstd::prelude::*;

verus! {

/// Why an archive operation failed. Outside errors arrive as their messages.
#[derive(Clone, Debug)]
pub enum PersistError {
    Io(String),
    Sqlite(String),
    Json(String),
    ParseId(String),
}

impl PersistError {
    /// The error's message, prefixed by its kind.
    pub open spec fn message_text(&self) -> Seq<char> {
        match self {
            PersistError::Io(m) => "io: "@ + m@,
            PersistError::Sqlite(m) => "sqlite: "@ + m@,
            PersistError::Json(m) => "json: "@ + m@,
            PersistError::ParseId(m) => "parse id: "@ + m@,
        }
    }

    pub fn message(&self) -> (s: String)
        ensures
            s@ == self.message_text(),
    {
        match self {
            PersistError::Io(m) => String::from_str("io: ").concat(m.as_str()),
            PersistError::Sqlite(m) => String::from_str("sqlite: ").concat(m.as_str()),
            PersistError::Json(m) => String::from_str("json: ").concat(m.as_str()),
            PersistError::ParseId(m) => String::from_str("parse id: ").concat(m.as_str()),
        }
    }
}

/// Row counts of an archive and where it lives.
#[derive(Clone, Debug, Default)]
pub struct ArchiveStats {
    pub souls: u64,
    pub packets: u64,
    pub path: String,
}

pub open spec fn is_digit(c: char) -> bool {
    '0' <= c && c <= '9'
}

pub open spec fn digit_value(c: char) -> nat {
    (c as int - '0' as int) as nat
}

/// Value of a run of decimal digits, most significant first.
pub open spec fn digits_value(s: Seq<char>) -> nat
    decreases s.len(),
{
    if s.len() == 0 {
        0
    } else {
        digits_value(s.drop_last()) * 10 + digit_value(s.last())
    }
}

/// The digits of an unsigned decimal literal: an optional leading `+` is skipped.
pub open spec fn unsigned_digits(s: Seq<char>) -> Seq<char> {
    if s.len() >= 1 && s[0] == '+' {
        s.drop_first()
    } else {
        s
    }
}

/// The number an unsigned decimal literal denotes, if it is one:
/// an optional `+`, then one or more ASCII digits.
pub open spec fn decimal_literal_value(s: Seq<char>) -> Option<nat> {
    let d = unsigned_digits(s);
    if d.len() > 0 && (forall|i: int| 0 <= i < d.len() ==> #[trigger] is_digit(d[i])) {
        Some(digits_value(d))
    } else {
        None
    }
}

/// Reads a soul, session or packet id written in decimal.
pub fn parse_u128(s: &str) -> (r: Result<u128, PersistError>)
    ensures
        match r {
            Ok(v) => decimal_literal_value(s@) == Some(v as nat),
            Err(e) => e == PersistError::ParseId(e->ParseId_0) && e->ParseId_0@ == s@ && !(
            exists|n: nat| decimal_literal_value(s@) == Some(n) && n <= u128::MAX),
        },
{
    let len = s.unicode_len();
    let start: usize = if len >= 1 && s.get_char(0) == '+' { 1 } else { 0 };
    let ghost d = unsigned_digits(s@);
    proof {
        if start == 1 {
            assert(d =~= s@.subrange(1, s@.len() as int));
        } else {
            assert(d =~= s@.subrange(0, s@.len() as int));
        }
    }
    let mut i: usize = start;
    let mut acc: u128 = 0;
    let mut overflowed = false;
    let mut bad = false;
    let ghost mut value: nat = 0;
    while i < len
        invariant
            start <= i <= len,
            len == s@.len(),
            d == s@.subrange(start as int, len as int),
            value == digits_value(d.take(i - start)),
            !bad ==> forall|j: int| 0 <= j < i - start ==> #[trigger] is_digit(d[j]),
            bad ==> exists|j: int| 0 <= j < d.len() && !#[trigger] is_digit(d[j]),
            !overflowed && !bad ==> acc == value,
            overflowed ==> value > u128::MAX,
        decreases len - i,
    {
        let c = s.get_char(i);
        let ghost k: int = i - start;
        proof {
            assert(d[k] == c);
            assert(d.take(k + 1).drop_last() =~= d.take(k));
        }
        if '0' <= c && c <= '9' {
            let dv: u128 = (c as u32 - '0' as u32) as u128;
            proof {
                value = value * 10 + digit_value(c);
            }
            assert(dv == digit_value(c));
            if !overflowed && !bad {
                if acc > (u128::MAX - dv) / 10 {
                    proof {
                        let a = acc as int;
                        let e = dv as int;
                        let m = u128::MAX as int;
                        assert(a * 10 + e > m) by (nonlinear_arith)
                            requires
                                a > (m - e) / 10,
                                0 <= e <= 9,
                                m > 9,
                        ;
                    }
                    overflowed = true;
                } else {
                    proof {
                        let a = acc as int;
                        let e = dv as int;
                        let m = u128::MAX as int;
                        assert(a * 10 + e <= m) by (nonlinear_arith)
                            requires
                                a <= (m - e) / 10,
                                0 <= e <= 9,
                        ;
                    }
                    acc = acc * 10 + dv;
                }
            }
        } else {
            bad = true;
            proof {
                assert(!is_digit(d[k]));
                value = value * 10 + digit_value(c);
            }
        }
        i = i + 1;
    }
    proof {
        assert(d.take(d.len() as int) =~= d);
    }
    if bad || overflowed || len == start {
        Err(PersistError::ParseId(String::from_str(s)))
    } else {
        Ok(acc)
    }
}

} // verus!
