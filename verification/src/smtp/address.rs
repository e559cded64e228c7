//! Mailbox addresses in their textual form `<local-part@domain>`.

use super::bytes::{find, find_byte, lemma_find, AT, GREATER, LESS};
use vstd::prelude::*;
use vstd::string::*;
use vstd::utf8::*;

verus! {

/// Why a buffer is no mailbox, without what the error carries.
#[derive(Debug, Clone, Copy, PartialEq, Eq)]
pub enum AddressFault {
    BadFrame,
    AtMissing,
    InvalidUtf8String,
}

/// Why a buffer is no mailbox.
#[derive(Debug)]
pub enum BadAddressError {
    /// The address does not start with `<` and finish with `>`.
    BadFrame,
    /// The address holds no `@`.
    AtMissing,
    /// The address is no UTF-8 string.
    InvalidUtf8String(std::string::FromUtf8Error),
}

impl From<std::string::FromUtf8Error> for BadAddressError {
    fn from(e: std::string::FromUtf8Error) -> (r: Self) {
        BadAddressError::InvalidUtf8String(e)
    }
}

impl vstd::std_specs::convert::FromSpecImpl<std::string::FromUtf8Error> for BadAddressError {
    open spec fn obeys_from_spec() -> bool {
        true
    }

    open spec fn from_spec(e: std::string::FromUtf8Error) -> Self {
        BadAddressError::InvalidUtf8String(e)
    }
}

impl View for BadAddressError {
    type V = AddressFault;

    open spec fn view(&self) -> AddressFault {
        match self {
            BadAddressError::BadFrame => AddressFault::BadFrame,
            BadAddressError::AtMissing => AddressFault::AtMissing,
            BadAddressError::InvalidUtf8String(_) => AddressFault::InvalidUtf8String,
        }
    }
}

/// `b` opens with `<` and closes with `>`.
pub open spec fn is_framed(b: Seq<u8>) -> bool {
    b.len() > 0 && b.first() == LESS && b.last() == GREATER
}

/// `b` has the shape of a mailbox: framed by `<` and `>`, with an `@` inside.
pub open spec fn is_mailbox(b: Seq<u8>) -> bool {
    is_framed(b) && b.contains(AT)
}

/// The first reason for which `b` is refused as an address, if there is one.
pub open spec fn address_fault(b: Seq<u8>) -> Option<AddressFault> {
    if !is_framed(b) {
        Some(AddressFault::BadFrame)
    } else if !b.contains(AT) {
        Some(AddressFault::AtMissing)
    } else if !valid_utf8(b) {
        Some(AddressFault::InvalidUtf8String)
    } else {
        None
    }
}

/// What stands between the first `@` of a mailbox and its closing `>`.
pub open spec fn mailbox_domain(b: Seq<u8>) -> Seq<u8> {
    b.subrange(find(b, AT) + 1, b.len() - 1)
}

/// A validated mailbox, kept with its angle brackets.
#[derive(Debug)]
pub struct EmailAddress(String);

impl View for EmailAddress {
    type V = Seq<u8>;

    /// The bytes of the textual form.
    closed spec fn view(&self) -> Seq<u8> {
        encode_utf8(self.0@)
    }
}

impl std::ops::Deref for EmailAddress {
    type Target = str;

    fn deref(&self) -> (s: &str)
        ensures
            s.spec_bytes() == self@,
    {
        self.0.as_str()
    }
}

impl EmailAddress {
    #[verifier::type_invariant]
    spec fn well_formed(self) -> bool {
        is_mailbox(encode_utf8(self.0@))
    }

    /// Validates `source` and keeps it as an address.
    pub fn from_bytes(source: Vec<u8>) -> (r: Result<Self, BadAddressError>)
        ensures
            match r {
                Ok(a) => address_fault(source@) is None && a@ == source@,
                Err(e) => address_fault(source@) == Some(e@),
            },
    {
        let n = source.len();
        if n == 0 || source[0] != LESS || source[n - 1] != GREATER {
            return Err(BadAddressError::BadFrame);
        }
        let at = find_byte(source.as_slice(), AT);
        proof {
            lemma_find(source@, AT);
        }
        if at >= n {
            return Err(BadAddressError::AtMissing);
        }
        match String::from_utf8(source) {
            Ok(text) => Ok(EmailAddress(text)),
            Err(e) => Err(BadAddressError::InvalidUtf8String(e)),
        }
    }

    /// The textual form, angle brackets included.
    pub fn as_str(&self) -> (s: &str)
        ensures
            s.spec_bytes() == self@,
            is_mailbox(self@),
    {
        proof {
            use_type_invariant(self);
        }
        self.0.as_str()
    }

    /// The part of the address after its first `@`, without the closing `>`.
    pub fn domain(&self) -> (r: &str)
        ensures
            is_mailbox(self@),
            r.spec_bytes() == mailbox_domain(self@),
    {
        let whole: &str = self.as_str();
        let at = find_byte(whole.as_bytes(), AT);
        proof {
            lemma_find(self@, AT);
            encode_utf8_valid_utf8(whole@);
            is_char_boundary_iff_not_is_continuation_byte(self@, at as int);
        }
        let (_, from_at) = whole.split_at(at);
        proof {
            encode_utf8_valid_utf8(from_at@);
            reveal_with_fuel(valid_utf8, 2);
            reveal_with_fuel(is_char_boundary, 2);
            assert(from_at.spec_bytes()[0] == AT);
        }
        let (_, after_at) = from_at.split_at(1);
        assert(after_at.spec_bytes() =~= self@.subrange(at + 1, self@.len() as int));
        let last = after_at.as_bytes().len() - 1;
        proof {
            encode_utf8_valid_utf8(after_at@);
            assert(after_at.spec_bytes()[last as int] == self@.last());
            is_char_boundary_iff_not_is_continuation_byte(after_at.spec_bytes(), last as int);
        }
        let (domain, _) = after_at.split_at(last);
        assert(domain.spec_bytes() =~= mailbox_domain(self@));
        domain
    }
}

/// Every mailbox opens with `<`, closes with `>` and holds an `@` strictly
/// between the two; its domain is what stands between the first `@` and the
/// closing `>`, so that the mailbox reads `<`, local part, `@`, domain, `>`.
pub proof fn lemma_mailbox_shape(b: Seq<u8>)
    requires
        is_mailbox(b),
    ensures
        b.first() == LESS,
        b.last() == GREATER,
        0 < find(b, AT) < b.len() - 1,
        b[find(b, AT)] == AT,
        b == seq![LESS] + b.subrange(1, find(b, AT)) + seq![AT] + mailbox_domain(b) + seq![
            GREATER,
        ],
{
    lemma_find(b, AT);
    assert(b =~= seq![LESS] + b.subrange(1, find(b, AT)) + seq![AT] + mailbox_domain(b) + seq![
        GREATER,
    ]);
}

/// Where a mailbox holds a single `@`, neither its local part nor its domain
/// holds one.
pub proof fn lemma_single_at(b: Seq<u8>)
    requires
        is_mailbox(b),
        forall|i: int, j: int| 0 <= i < b.len() && 0 <= j < b.len() && b[i] == AT && b[j] == AT
            ==> i == j,
    ensures
        !b.subrange(1, find(b, AT)).contains(AT),
        !mailbox_domain(b).contains(AT),
{
    lemma_find(b, AT);
    let at = find(b, AT);
    let local = b.subrange(1, at);
    let domain = mailbox_domain(b);
    if local.contains(AT) {
        let k = choose|k: int| 0 <= k < local.len() && local[k] == AT;
        assert(b[k + 1] == AT);
    }
    if domain.contains(AT) {
        let k = choose|k: int| 0 <= k < domain.len() && domain[k] == AT;
        assert(b[at + 1 + k] == AT);
    }
}

} // verus!
