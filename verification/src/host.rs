//! What the library takes from the host: the clock, fresh identifiers and
//! file-system paths.  Each outside call stands behind one trusted item.
use vstd::prelude::*;

verus! {

/// `std::path::PathBuf`, the place of a repository or a submodule on disk.
#[verifier::external_type_specification]
#[verifier::external_body]
pub struct ExPathBuf(std::path::PathBuf);

/// The path that `std::path::Path::join` makes of `base` and `segment`.
/// `join` is a function of its arguments alone: the separator it uses is
/// fixed when the program is built.
pub uninterp spec fn path_joined(base: std::path::PathBuf, segment: Seq<char>) -> std::path::PathBuf;

/// Calls `std::path::Path::join` (through `PathBuf`'s dereference to
/// `Path`): `base` with `segment` appended as one more component.  The
/// result is the name `path_joined` applied to the arguments.
#[verifier::external_body]
pub(crate) fn join_path(base: &std::path::PathBuf, segment: &str) -> (r: std::path::PathBuf)
    ensures
        r == path_joined(*base, segment@),
{
    base.join(segment)
}

/// `std::time::SystemTime`, a reading of the system clock.
#[verifier::external_type_specification]
#[verifier::external_body]
pub struct ExSystemTime(std::time::SystemTime);

/// Calls `std::time::SystemTime::now`.  Nothing is stated of the result: it
/// is the time.
#[verifier::external_body]
pub(crate) fn system_now() -> std::time::SystemTime {
    std::time::SystemTime::now()
}

/// Calls `std::time::SystemTime::duration_since` with `UNIX_EPOCH`: the time
/// elapsed from the epoch to `t`, or `None` where `t` is earlier than the
/// epoch (the call's error).  Nothing more is stated of the result: a
/// reading of the clock has no model here.
#[verifier::external_body]
pub(crate) fn since_unix_epoch(t: &std::time::SystemTime) -> Option<std::time::Duration> {
    match t.duration_since(std::time::UNIX_EPOCH) {
        Ok(elapsed) => Some(elapsed),
        Err(_) => None,
    }
}

/// Calls `std::time::Duration::as_secs`: the whole seconds of `d`.  Nothing
/// is stated of the result: a duration has no model here.
#[verifier::external_body]
pub(crate) fn whole_secs(d: &std::time::Duration) -> u64 {
    d.as_secs()
}

/// The whole seconds from the Unix epoch to now by the system clock; 0 where
/// the clock reads earlier than the epoch.
pub fn unix_time_secs() -> u64 {
    match since_unix_epoch(&system_now()) {
        Some(elapsed) => whole_secs(&elapsed),
        None => 0,
    }
}

/// A lower-case hexadecimal digit.
pub open spec fn is_lower_hex(c: char) -> bool {
    ('0' <= c && c <= '9') || ('a' <= c && c <= 'f')
}

/// The hyphenated lower-case text of a version 4 UUID, such as
/// `67e55044-10b1-426f-9247-bb680e5fe0c8`: five groups of 8, 4, 4, 4 and 12
/// hexadecimal digits; the version digit is `4` and the variant digit one
/// of `8`, `9`, `a`, `b`.
pub open spec fn is_uuid_v4_text(s: Seq<char>) -> bool {
    &&& s.len() == 36
    &&& forall|i: int|
        0 <= i < 36 ==> if i == 8 || i == 13 || i == 18 || i == 23 {
            s[i] == '-'
        } else {
            is_lower_hex(#[trigger] s[i])
        }
    &&& s[14] == '4'
    &&& (s[19] == '8' || s[19] == '9' || s[19] == 'a' || s[19] == 'b')
}

/// The lower-case hexadecimal digits, by value.
pub open spec fn lower_hex_digits() -> Seq<char> {
    seq!['0', '1', '2', '3', '4', '5', '6', '7', '8', '9', 'a', 'b', 'c', 'd', 'e', 'f']
}

/// Byte `i` of the version 4 UUID built from `random`: byte 6 gets version
/// 4 in its high half, byte 8 the RFC 4122 variant bits `10` on top; the
/// other bytes are `random`'s own.
pub open spec fn uuid_v4_byte(random: Seq<u8>, i: int) -> u8 {
    if i == 6 {
        (random[6] & 0x0f) | 0x40
    } else if i == 8 {
        (random[8] & 0x3f) | 0x80
    } else {
        random[i]
    }
}

/// Which of the 32 hexadecimal digits stands at position `p` of the
/// hyphenated text (hyphens at 8, 13, 18 and 23).
pub open spec fn uuid_digit_index(p: int) -> int {
    if p < 8 {
        p
    } else if p < 13 {
        p - 1
    } else if p < 18 {
        p - 2
    } else if p < 23 {
        p - 3
    } else {
        p - 4
    }
}

/// The hyphenated lower-case text of the version 4 UUID built from
/// `random`: each byte as two digits, high half first.
pub open spec fn uuid_v4_text(random: Seq<u8>) -> Seq<char> {
    Seq::new(
        36,
        |p: int|
            if p == 8 || p == 13 || p == 18 || p == 23 {
                '-'
            } else {
                let d = uuid_digit_index(p);
                let b = uuid_v4_byte(random, d / 2);
                if d % 2 == 0 {
                    lower_hex_digits()[(b >> 4) as int]
                } else {
                    lower_hex_digits()[(b & 0x0f) as int]
                }
            },
    )
}

/// The text of a version 4 UUID built from any 16 bytes has the shape of
/// one.
pub proof fn lemma_uuid_v4_text_shape(random: Seq<u8>)
    requires
        random.len() == 16,
    ensures
        is_uuid_v4_text(uuid_v4_text(random)),
{
    let s = uuid_v4_text(random);
    assert forall|p: int| 0 <= p < 36 && !(p == 8 || p == 13 || p == 18 || p == 23) implies is_lower_hex(
        #[trigger] s[p],
    ) by {
        let d = uuid_digit_index(p);
        let b = uuid_v4_byte(random, d / 2);
        assert(b >> 4 < 16 && b & 0x0f < 16) by (bit_vector);
    }
    let b6 = random[6];
    let b8 = random[8];
    assert(((b6 & 0x0f) | 0x40) >> 4 == 4) by (bit_vector);
    assert(8 <= ((b8 & 0x3f) | 0x80) >> 4 < 12) by (bit_vector);
}

/// Builds a version 4 UUID from the 16 bytes `random` with
/// `uuid::Builder::from_random_bytes` (which only sets the version and
/// variant bits) and renders it with `to_string`, whose `Display` is the
/// hyphenated lower-case form.  Neither call can fail.
#[verifier::external_body]
pub(crate) fn uuid_v4_text_from(random: [u8; 16]) -> (s: String)
    ensures
        s@ == uuid_v4_text(random@),
{
    uuid::Builder::from_random_bytes(random).into_uuid().to_string()
}

} // verus!
