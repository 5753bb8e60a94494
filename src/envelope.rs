//! The syslog envelope: `[<PRI> ]TIMESTAMP IDENT [fields]:[ ]MESSAGE`.
use vstd::prelude::*;
use crate::text::{chars_of, find_char, find_from, lemma_find_from, slice_of, string_of};

verus! {

/// Why a line has no syslog envelope.
#[derive(Clone, Copy, Debug, PartialEq, Eq, Structural)]
pub enum EnvelopeError {
    /// The line opens with `<` and holds no space after it.
    BadPriority,
    /// No space ends the timestamp.
    MissingTimestamp,
    /// No space ends the identifier.
    MissingIdent,
    /// No `:` separates the message.
    MissingSeparator,
}

impl EnvelopeError {
    /// The text of the error.
    pub fn message(&self) -> (r: &'static str)
        ensures
            r@ == error_text(*self),
    {
        match self {
            EnvelopeError::BadPriority => "Invalid PRI/version format",
            EnvelopeError::MissingTimestamp => "Missing timestamp",
            EnvelopeError::MissingIdent => "Missing ident",
            EnvelopeError::MissingSeparator => "Missing message separator",
        }
    }
}

pub open spec fn error_text(e: EnvelopeError) -> Seq<char> {
    match e {
        EnvelopeError::BadPriority => "Invalid PRI/version format"@,
        EnvelopeError::MissingTimestamp => "Missing timestamp"@,
        EnvelopeError::MissingIdent => "Missing ident"@,
        EnvelopeError::MissingSeparator => "Missing message separator"@,
    }
}

/// `s` without its trailing line feeds.
pub open spec fn strip_newlines(s: Seq<char>) -> Seq<char>
    decreases s.len(),
{
    if s.len() > 0 && s.last() == '\n' {
        strip_newlines(s.drop_last())
    } else {
        s
    }
}

/// Where the timestamp starts: after the priority field when the line opens
/// with `<`, else at 0; -1 when that field has no closing space.
pub open spec fn header_start(s: Seq<char>) -> int {
    if s.len() > 0 && s[0] == '<' {
        let p = find_from(s, ' ', 0);
        if p == -1 {
            -1
        } else {
            p + 1
        }
    } else {
        0
    }
}

/// The identifier and the message of a syslog line. The timestamp runs to the
/// first space, the identifier to the next; the message follows the first `:`
/// after the identifier and one optional space, without trailing line feeds.
pub open spec fn envelope_of(s: Seq<char>) -> Result<(Seq<char>, Seq<char>), EnvelopeError> {
    let c0 = header_start(s);
    if c0 == -1 {
        Err(EnvelopeError::BadPriority)
    } else {
        let ts = find_from(s, ' ', c0);
        if ts == -1 {
            Err(EnvelopeError::MissingTimestamp)
        } else {
            let id_end = find_from(s, ' ', ts + 1);
            if id_end == -1 {
                Err(EnvelopeError::MissingIdent)
            } else {
                let colon = find_from(s, ':', id_end + 1);
                if colon == -1 {
                    Err(EnvelopeError::MissingSeparator)
                } else {
                    let m0 = if colon + 1 < s.len() && s[colon + 1] == ' ' {
                        colon + 2
                    } else {
                        colon + 1
                    };
                    Ok((s.subrange(ts + 1, id_end), strip_newlines(s.subrange(m0, s.len() as int))))
                }
            }
        }
    }
}

/// Splits a syslog line into its identifier and its message.
pub fn parse_envelope(text: &str) -> (r: Result<(String, String), EnvelopeError>)
    ensures
        match r {
            Ok((ident, message)) => envelope_of(text@) == Ok::<_, EnvelopeError>((ident@, message@)),
            Err(e) => envelope_of(text@) == Err::<(Seq<char>, Seq<char>), _>(e),
        },
{
    let v = chars_of(text);
    let s = Ghost(v@);
    let mut cursor: usize = 0;
    if v.len() > 0 && v[0] == '<' {
        match find_char(&v, ' ', 0) {
            Some(p) => {
                proof {
                    lemma_find_from(s@, ' ', 0);
                }
                cursor = p + 1;
            },
            None => {
                return Err(EnvelopeError::BadPriority);
            },
        }
    }
    let ts = match find_char(&v, ' ', cursor) {
        Some(i) => i,
        None => {
            return Err(EnvelopeError::MissingTimestamp);
        },
    };
    proof {
        lemma_find_from(s@, ' ', cursor as int);
    }
    let id_end = match find_char(&v, ' ', ts + 1) {
        Some(i) => i,
        None => {
            return Err(EnvelopeError::MissingIdent);
        },
    };
    proof {
        lemma_find_from(s@, ' ', ts + 1);
    }
    let colon = match find_char(&v, ':', id_end + 1) {
        Some(i) => i,
        None => {
            return Err(EnvelopeError::MissingSeparator);
        },
    };
    proof {
        lemma_find_from(s@, ':', id_end + 1);
    }
    let mut m0: usize = colon + 1;
    if m0 < v.len() && v[m0] == ' ' {
        m0 = m0 + 1;
    }
    let mut end: usize = v.len();
    assert(strip_newlines(s@.subrange(m0 as int, s@.len() as int)) == strip_newlines(
        s@.subrange(m0 as int, end as int),
    ));
    while end > m0 && v[end - 1] == '\n'
        invariant
            m0 <= end <= v@.len(),
            v@ == s@,
            strip_newlines(s@.subrange(m0 as int, s@.len() as int)) == strip_newlines(
                s@.subrange(m0 as int, end as int),
            ),
        decreases end,
    {
        assert(s@.subrange(m0 as int, end as int).drop_last() =~= s@.subrange(
            m0 as int,
            end - 1,
        ));
        end = end - 1;
    }
    let ident = string_of(&slice_of(&v, ts + 1, id_end));
    let message = string_of(&slice_of(&v, m0, end));
    Ok((ident, message))
}

/// Splits a syslog line into its identifier and its message, or names the
/// field that is missing.
pub fn parse_syslog_message(text: &str) -> (r: Result<(String, String), &'static str>)
    ensures
        match r {
            Ok((ident, message)) => envelope_of(text@) == Ok::<_, EnvelopeError>((ident@, message@)),
            Err(e) => envelope_of(text@) is Err && e@ == error_text(envelope_of(text@)->Err_0),
        },
{
    match parse_envelope(text) {
        Ok(pair) => Ok(pair),
        Err(e) => Err(e.message()),
    }
}

} // verus!
