use vstd::prelude::*;
use vstd::slice::slice_subrange;
use vstd::string::StringSliceAdditionalSpecFns;
use vstd::utf8::valid_utf8;
use crate::db::query::{first_match, first_match_from, inner_view};

verus! {

/// Checks the `Authorization` header of a request against a password.
pub struct VerifyAuthorization {
    password: String,
}

/// Why a request is turned away.
#[derive(Debug, Clone, Copy, PartialEq, Eq, Structural)]
pub enum Rejection {
    /// The header is missing or malformed.
    BadRequest,
    /// The header is well-formed and carries another password.
    Forbidden,
}

/// What `base64::decode` makes of the input: the bytes that it stands for in
/// the standard alphabet with padding, or nothing where it is no such text.
pub uninterp spec fn base64_decoded(input: Seq<u8>) -> Option<Seq<u8>>;

/// Decodes with `base64::decode`.
///
/// Trusted: whether there is a result and what it holds depend on the input
/// alone.
#[verifier::external_body]
fn decode_base64(input: &[u8]) -> (decoded: Option<Vec<u8>>)
    ensures
        inner_view(decoded) == base64_decoded(input@),
{
    base64::decode(input).ok()
}

/// Asks `std::str::from_utf8` whether the bytes are text.
///
/// Trusted: it accepts exactly the well-formed UTF-8 sequences.
#[verifier::external_body]
fn is_utf8(bytes: &[u8]) -> (valid: bool)
    ensures
        valid == valid_utf8(bytes@),
{
    std::str::from_utf8(bytes).is_ok()
}

/// The bytes of `Basic `, which a header starts with.
pub open spec fn basic_prefix() -> Seq<u8> {
    seq![0x42u8, 0x61u8, 0x73u8, 0x69u8, 0x63u8, 0x20u8]
}

/// The bytes without the line feeds at their end.
pub open spec fn without_line_feeds(bytes: Seq<u8>) -> Seq<u8>
    decreases bytes.len(),
{
    if bytes.len() > 0 && bytes.last() == 0x0Au8 {
        without_line_feeds(bytes.drop_last())
    } else {
        bytes
    }
}

/// The bytes that are a colon.
pub open spec fn is_colon() -> spec_fn(u8) -> bool {
    |byte: u8| byte == 0x3Au8
}

/// The verdict on decoded credentials. They must be text. Line feeds at
/// their end do not count. What stands before the first colon is the user
/// name, which is not looked at; what stands after it must be the password.
pub open spec fn credentials_verdict(decoded: Seq<u8>, password: Seq<u8>) -> Result<(), Rejection> {
    if !valid_utf8(decoded) {
        Err(Rejection::BadRequest)
    } else {
        let line = without_line_feeds(decoded);
        match first_match(line, is_colon()) {
            None => Err(Rejection::BadRequest),
            Some(colon) => if line.subrange(colon + 1, line.len() as int) == password {
                Ok(())
            } else {
                Err(Rejection::Forbidden)
            },
        }
    }
}

/// The verdict on a header. It must be there, be longer than `Basic ` and
/// start with it, and the rest must decode to credentials that pass.
pub open spec fn header_verdict(authorization: Option<Seq<u8>>, password: Seq<u8>) -> Result<(), Rejection> {
    match authorization {
        None => Err(Rejection::BadRequest),
        Some(header) => if header.len() < 7 || header.subrange(0, 6) != basic_prefix() {
            Err(Rejection::BadRequest)
        } else {
            match base64_decoded(header.subrange(6, header.len() as int)) {
                None => Err(Rejection::BadRequest),
                Some(decoded) => credentials_verdict(decoded, password),
            }
        },
    }
}

/// The bytes of an optional header.
pub open spec fn header_bytes(authorization: Option<&str>) -> Option<Seq<u8>> {
    match authorization {
        Some(header) => Some(header.spec_bytes()),
        None => None,
    }
}

/// Whether the first six bytes are `Basic `.
fn starts_with_basic(header: &[u8]) -> (yes: bool)
    requires
        header@.len() >= 6,
    ensures
        yes == (header@.subrange(0, 6) == basic_prefix()),
{
    let yes = header[0] == 0x42 && header[1] == 0x61 && header[2] == 0x73 && header[3] == 0x69
        && header[4] == 0x63 && header[5] == 0x20;
    proof {
        let head = header@.subrange(0, 6);
        if yes {
            assert(head =~= basic_prefix());
        } else {
            assert(head[0] == header@[0] && head[1] == header@[1] && head[2] == header@[2]
                && head[3] == header@[3] && head[4] == header@[4] && head[5] == header@[5]);
            assert(basic_prefix()[0] == 0x42u8 && basic_prefix()[1] == 0x61u8 && basic_prefix()[2]
                == 0x73u8 && basic_prefix()[3] == 0x69u8 && basic_prefix()[4] == 0x63u8
                && basic_prefix()[5] == 0x20u8);
        }
    }
    yes
}

/// Whether two byte strings are the same.
fn same_bytes(a: &[u8], b: &[u8]) -> (same: bool)
    ensures
        same == (a@ == b@),
{
    if a.len() != b.len() {
        return false;
    }
    let mut i: usize = 0;
    while i < a.len()
        invariant
            i <= a.len(),
            a.len() == b.len(),
            forall|j: int| 0 <= j < i ==> a@[j] == b@[j],
        decreases a.len() - i,
    {
        if a[i] != b[i] {
            return false;
        }
        i += 1;
    }
    assert(a@ =~= b@);
    true
}

/// The verdict on decoded credentials.
pub fn check_credentials(decoded: &[u8], password: &[u8]) -> (verdict: Result<(), Rejection>)
    ensures
        verdict == credentials_verdict(decoded@, password@),
{
    if !is_utf8(decoded) {
        return Err(Rejection::BadRequest);
    }
    let mut end: usize = decoded.len();
    assert(decoded@.subrange(0, end as int) =~= decoded@);
    while end > 0 && decoded[end - 1] == 0x0A
        invariant
            end <= decoded.len(),
            without_line_feeds(decoded@) == without_line_feeds(decoded@.subrange(0, end as int)),
        decreases end,
    {
        proof {
            assert(decoded@.subrange(0, end as int).drop_last() =~= decoded@.subrange(
                0,
                end as int - 1,
            ));
        }
        end -= 1;
    }
    let line = slice_subrange(decoded, 0, end);
    assert(line@ == without_line_feeds(decoded@));
    let mut colon: usize = 0;
    while colon < line.len()
        invariant
            colon <= line.len(),
            valid_utf8(decoded@),
            line@ == without_line_feeds(decoded@),
            first_match(line@, is_colon()) == first_match_from(line@, is_colon(), colon as int),
        decreases line.len() - colon,
    {
        if line[colon] == 0x3A {
            let given = slice_subrange(line, colon + 1, line.len());
            return if same_bytes(given, password) {
                Ok(())
            } else {
                Err(Rejection::Forbidden)
            };
        }
        colon += 1;
    }
    Err(Rejection::BadRequest)
}

impl VerifyAuthorization {
    /// The password that requests have to carry.
    pub closed spec fn password(&self) -> Seq<char> {
        self.password@
    }

    pub fn new(password: &str) -> (check: Self)
        ensures
            check.password() == password@,
    {
        Self { password: password.to_owned() }
    }

    /// The verdict on the header of a request, for the password of this
    /// check.
    pub fn verify(&self, authorization: Option<&str>) -> (verdict: Result<(), Rejection>)
        ensures
            verdict == header_verdict(
                header_bytes(authorization),
                vstd::utf8::encode_utf8(self.password()),
            ),
    {
        Self::validate(authorization, self.password.as_str())
    }

    /// The verdict on an `Authorization` header for a password.
    pub fn validate(authorization: Option<&str>, password: &str) -> (verdict: Result<(), Rejection>)
        ensures
            verdict == header_verdict(header_bytes(authorization), password.spec_bytes()),
    {
        let header = match authorization {
            Some(text) => text.as_bytes(),
            None => {
                return Err(Rejection::BadRequest);
            },
        };
        if header.len() < 7 {
            // 'Basic ' is 6 bytes long, so anything below 7 is invalid
            return Err(Rejection::BadRequest);
        }
        if !starts_with_basic(header) {
            return Err(Rejection::BadRequest);
        }
        let base64_auth = slice_subrange(header, 6, header.len());
        match decode_base64(base64_auth) {
            Some(bytes) => check_credentials(bytes.as_slice(), password.as_bytes()),
            None => Err(Rejection::BadRequest),
        }
    }
}

} // verus!
