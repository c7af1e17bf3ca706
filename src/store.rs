use vstd::prelude::*;
use vstd::std_specs::iter::IteratorSpec;
use crate::date::Date;
use crate::session::{Session, StoreError};

verus! {

/// The characters with Unicode's `White_Space` property.
pub open spec fn is_white(c: char) -> bool {
    let n = c as u32;
    (0x9 <= n <= 0xD) || n == 0x20 || n == 0x85 || n == 0xA0 || n == 0x1680 || (0x2000 <= n
        <= 0x200A) || n == 0x2028 || n == 0x2029 || n == 0x202F || n == 0x205F || n == 0x3000
}

/// Text that holds nothing but white space (the empty text included).
pub open spec fn is_blank(s: Seq<char>) -> bool {
    forall|i: int| 0 <= i < s.len() ==> is_white(s[i])
}

pub fn white(c: char) -> (r: bool)
    ensures
        r == is_white(c),
{
    let n = c as u32;
    (0x9 <= n && n <= 0xD) || n == 0x20 || n == 0x85 || n == 0xA0 || n == 0x1680 || (0x2000 <= n
        && n <= 0x200A) || n == 0x2028 || n == 0x2029 || n == 0x202F || n == 0x205F || n == 0x3000
}

pub fn blank(s: &str) -> (r: bool)
    ensures
        r == is_blank(s@),
{
    let mut all: bool = true;
    for c in it: s.chars()
        invariant
            it.seq() == s@,
            all == (forall|i: int| 0 <= i < it.index() ==> is_white(s@[i])),
    {
        if !white(c) {
            all = false;
        }
    }
    all
}

/// Stored text, `None` where there is no storage file, that holds records:
/// a file that holds more than white space.
pub open spec fn holds_records(contents: Option<&str>) -> bool {
    match contents {
        Some(c) => !is_blank(c@),
        None => false,
    }
}

/// Whether stored text, `None` where there is no storage file, has to be
/// parsed: it does exactly when a file exists and holds more than white space.
pub fn needs_parse(contents: Option<&str>) -> (r: bool)
    ensures
        r == holds_records(contents),
{
    match contents {
        Some(c) => !blank(c),
        None => false,
    }
}

/// The sessions held in storage, given its text (`None` where there is no
/// storage file) and, where that text had to be parsed, the sessions parsed
/// from it (`None` where it did not parse).
///
/// No file, and a file of white space only, hold no sessions; text that does
/// not parse is `Corrupt`.
pub fn load_sessions(contents: Option<&str>, parsed: Option<Vec<Session>>) -> (r: Result<
    Vec<Session>,
    StoreError,
>)
    ensures
        !holds_records(contents) ==> (r matches Ok(v) && v@.len() == 0),
        holds_records(contents) ==> match parsed {
            Some(v) => r == Ok::<Vec<Session>, StoreError>(v),
            None => r == Err::<Vec<Session>, StoreError>(StoreError::Corrupt),
        },
{
    if needs_parse(contents) {
        match parsed {
            Some(v) => Ok(v),
            None => Err(StoreError::Corrupt),
        }
    } else {
        Ok(Vec::new())
    }
}

/// Minutes of a new session must be positive.
pub fn check_minutes(minutes: i64) -> (r: Result<(), StoreError>)
    ensures
        r == (if minutes > 0 { Ok::<(), StoreError>(()) } else { Err(StoreError::Validation) }),
{
    if minutes > 0 {
        Ok(())
    } else {
        Err(StoreError::Validation)
    }
}

/// Appends a session of `minutes` on `topic` dated `today`, where `minutes`
/// is positive; otherwise refuses it and leaves `sessions` as it was.
pub fn add_session(sessions: &mut Vec<Session>, today: Date, minutes: i64, topic: String) -> (r:
    Result<(), StoreError>)
    ensures
        minutes > 0 ==> r is Ok && final(sessions)@ == old(sessions)@.push(
            (Session { date: today, minutes, topic }),
        ),
        minutes <= 0 ==> r == Err::<(), StoreError>(StoreError::Validation) && final(sessions)@
            == old(sessions)@,
{
    check_minutes(minutes)?;
    sessions.push(Session { date: today, minutes, topic });
    Ok(())
}

} // verus!
