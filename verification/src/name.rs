use vstd::prelude::*;

use crate::strutil::{push_char, str_eq};

verus! {

/// Whether a character counts as alphanumeric under Unicode.
pub uninterp spec fn alphanumeric(c: char) -> bool;

/// Relies on `char::is_alphanumeric` of std: membership in the Unicode
/// alphanumeric categories depends on the character alone.
#[verifier::external_body]
fn is_alphanumeric_char(c: char) -> (r: bool)
    ensures
        r == alphanumeric(c),
{
    c.is_alphanumeric()
}

/// A character that a procedure or router name may contain.
pub open spec fn name_char_ok(c: char) -> bool {
    alphanumeric(c) || c == '_' || c == '-' || c == '~'
}

/// A name must be non-empty and at most 255 characters long.
pub open spec fn name_len_ok(s: Seq<char>) -> bool {
    0 < s.len() <= 255
}

/// Every character of the name is allowed.
pub open spec fn all_chars_ok(s: Seq<char>) -> bool {
    forall|i: int| 0 <= i < s.len() ==> name_char_ok(s[i])
}

/// The reserved names that can never be registered.
pub open spec fn reserved_name(s: Seq<char>) -> bool {
    s == "rspc"@ || s == "_batch"@
}

/// The index of the first disallowed character of `s`; meaningful only
/// when `all_chars_ok(s)` does not hold.
pub open spec fn first_bad_index(s: Seq<char>) -> int
    decreases s.len(),
{
    if s.len() == 0 {
        0
    } else if !name_char_ok(s[0]) {
        0
    } else {
        1 + first_bad_index(s.skip(1))
    }
}

/// The abstract shape of a build-time violation.
pub ghost enum CauseKind {
    BadLength,
    BadChar(char),
    Reserved,
    Duplicate,
}

/// The verdict of the name validator on a candidate name: `None` for a
/// valid name, otherwise the first violation in checking order (length,
/// then characters, then the reserved set).
pub open spec fn spec_validate(s: Seq<char>) -> Option<CauseKind> {
    if !name_len_ok(s) {
        Some(CauseKind::BadLength)
    } else if !all_chars_ok(s) {
        Some(CauseKind::BadChar(s[first_bad_index(s)]))
    } else if reserved_name(s) {
        Some(CauseKind::Reserved)
    } else {
        None
    }
}

/// Why a registration was rejected while assembling a router.
#[derive(Debug)]
pub enum BuildErrorCause {
    /// The name is empty or longer than 255 characters.
    InvalidName,
    /// The name contains the given character, which is not allowed.
    InvalidCharInName(char),
    /// The name is one of the reserved names.
    ReservedName(String),
    /// The name is already taken within the same store kind.
    DuplicateName(String),
}

impl BuildErrorCause {
    /// The abstract shape of this cause.
    pub open spec fn kind(&self) -> CauseKind {
        match self {
            BuildErrorCause::InvalidName => CauseKind::BadLength,
            BuildErrorCause::InvalidCharInName(c) => CauseKind::BadChar(*c),
            BuildErrorCause::ReservedName(_) => CauseKind::Reserved,
            BuildErrorCause::DuplicateName(_) => CauseKind::Duplicate,
        }
    }

    /// The human-readable reason behind this cause.
    pub open spec fn spec_message(&self) -> Seq<char> {
        match self {
            BuildErrorCause::InvalidName => (
            "a procedure or router name must be more than 1 character and less than 255 characters")@,
            BuildErrorCause::InvalidCharInName(c) => (
            "a procedure or router name contains the character '")@ + seq![*c] + (
            "' which is not allowed. Names must be alphanumeric or have '_' or '-'")@,
            BuildErrorCause::ReservedName(n) => ("a procedure or router name '")@ + n@ + (
            "' is reserved and cannot be registered")@,
            BuildErrorCause::DuplicateName(n) => ("a procedure or router with the name '")@ + n@ + (
            "' has already been registered")@,
        }
    }

    /// Renders the reason behind this cause.
    pub fn message(&self) -> (r: String)
        ensures
            r@ == self.spec_message(),
    {
        match self {
            BuildErrorCause::InvalidName => String::from_str(
                "a procedure or router name must be more than 1 character and less than 255 characters",
            ),
            BuildErrorCause::InvalidCharInName(c) => {
                let mut r = String::from_str("a procedure or router name contains the character '");
                push_char(&mut r, *c);
                r.append("' which is not allowed. Names must be alphanumeric or have '_' or '-'");
                r
            },
            BuildErrorCause::ReservedName(n) => {
                let mut r = String::from_str("a procedure or router name '");
                r.append(n.as_str());
                r.append("' is reserved and cannot be registered");
                r
            },
            BuildErrorCause::DuplicateName(n) => {
                let mut r = String::from_str("a procedure or router with the name '");
                r.append(n.as_str());
                r.append("' has already been registered");
                r
            },
        }
    }
}

/// The first `i` characters of `s` are allowed and `s[i]` is not, so
/// `i` is exactly `first_bad_index(s)`.
proof fn lemma_first_bad_index(s: Seq<char>, i: int)
    requires
        0 <= i < s.len(),
        !name_char_ok(s[i]),
        forall|j: int| 0 <= j < i ==> name_char_ok(s[j]),
    ensures
        first_bad_index(s) == i,
        !all_chars_ok(s),
    decreases i,
{
    if i > 0 {
        lemma_first_bad_index(s.skip(1), i - 1);
    }
}

/// Checks a candidate procedure or router segment name.
///
/// Returns `None` for a valid name, otherwise the specific violation:
/// a length violation for an empty or over-long name, the first
/// disallowed character for a character violation, and a reserved-name
/// violation for an exact match against the reserved set.
pub fn is_valid_name(name: &str) -> (r: Option<BuildErrorCause>)
    ensures
        (r is Some) == (spec_validate(name@) is Some),
        (match r {
            Some(cause) => spec_validate(name@) == Some(cause.kind()),
            None => spec_validate(name@) is None,
        }),
        (match r {
            Some(BuildErrorCause::ReservedName(n)) => n@ == name@,
            _ => true,
        }),
{
    let len = name.unicode_len();
    if len == 0 || len > 255 {
        return Some(BuildErrorCause::InvalidName);
    }
    let mut i: usize = 0;
    while i < len
        invariant
            i <= len,
            len == name@.len(),
            name_len_ok(name@),
            forall|j: int| 0 <= j < i ==> name_char_ok(name@[j]),
        decreases len - i,
    {
        let c = name.get_char(i);
        if !(is_alphanumeric_char(c) || c == '_' || c == '-' || c == '~') {
            proof {
                lemma_first_bad_index(name@, i as int);
            }
            return Some(BuildErrorCause::InvalidCharInName(c));
        }
        i += 1;
    }
    if str_eq(name, "rspc") || str_eq(name, "_batch") {
        return Some(BuildErrorCause::ReservedName(String::from_str(name)));
    }
    None
}

} // verus!
