//! What the registry asks of a request before it reaches a store: an
//! address in dotted-quad form, a port other than zero, colour components
//! that fit a byte.

use vstd::prelude::*;
use vstd::utf8::encode_utf8;
use crate::error::Error;
use crate::portal::Portal;
use crate::server::{Server, ServerView};

verus! {

/// `b` is an ASCII decimal digit.
pub open spec fn is_digit(b: u8) -> bool {
    48 <= b <= 57
}

/// The number that the decimal digits `s` write.
pub open spec fn decimal(s: Seq<u8>) -> int
    decreases s.len(),
{
    if s.len() == 0 {
        0
    } else {
        decimal(s.drop_last()) * 10 + (s.last() - 48)
    }
}

/// `s` writes one part of an address: one to three digits, no leading
/// zero before another digit, at most 255.
pub open spec fn is_octet(s: Seq<u8>) -> bool {
    &&& 1 <= s.len() <= 3
    &&& forall|i: int| 0 <= i < s.len() ==> is_digit(#[trigger] s[i])
    &&& (s.len() > 1 ==> s[0] != 48)
    &&& decimal(s) <= 255
}

/// `s` has dots at `a`, `b` and `c`, and what stands before, between and
/// after them are four octets.
pub open spec fn splits_at(s: Seq<u8>, a: int, b: int, c: int) -> bool {
    &&& 0 <= a < b < c < s.len()
    &&& s[a] == 46 && s[b] == 46 && s[c] == 46
    &&& is_octet(s.subrange(0, a))
    &&& is_octet(s.subrange(a + 1, b))
    &&& is_octet(s.subrange(b + 1, c))
    &&& is_octet(s.subrange(c + 1, s.len() as int))
}

/// `s` is an IPv4 address in dotted-quad form: four octets joined by dots.
pub open spec fn is_ipv4(s: Seq<u8>) -> bool {
    exists|a: int, b: int, c: int| splits_at(s, a, b, c)
}

/// From `start` on, `s` holds digits up to `e` and none at `e`.
pub open spec fn digits_until(s: Seq<u8>, start: int, e: int) -> bool {
    &&& 0 <= start <= e <= s.len()
    &&& forall|i: int| start <= i < e ==> is_digit(#[trigger] s[i])
    &&& (e < s.len() ==> !is_digit(s[e]))
}

proof fn lemma_octet_end(s: Seq<u8>, start: int, stop: int, e: int)
    requires
        0 <= start <= stop <= s.len(),
        is_octet(s.subrange(start, stop)),
        stop < s.len() ==> !is_digit(s[stop]),
        digits_until(s, start, e),
    ensures
        e == stop,
{
    let part = s.subrange(start, stop);
    if e < stop {
        assert(is_digit(part[e - start]));
    } else if stop < e {
        assert(is_digit(s[stop]));
    }
}

fn digits_end(b: &[u8], start: usize) -> (end: usize)
    requires
        start <= b@.len(),
    ensures
        digits_until(b@, start as int, end as int),
{
    let mut i: usize = start;
    while i < b.len() && b[i] >= 48 && b[i] <= 57
        invariant
            start <= i <= b@.len(),
            forall|k: int| start <= k < i ==> is_digit(#[trigger] b@[k]),
        decreases b@.len() - i,
    {
        i += 1;
    }
    i
}

fn octet_ok(b: &[u8], start: usize, end: usize) -> (r: bool)
    requires
        start <= end <= b@.len(),
        forall|i: int| start <= i < end ==> is_digit(#[trigger] b@[i]),
    ensures
        r == is_octet(b@.subrange(start as int, end as int)),
{
    let ghost part = b@.subrange(start as int, end as int);
    let n: usize = end - start;
    if n < 1 || n > 3 {
        return false;
    }
    if n > 1 && b[start] == 48 {
        assert(part[0] == 48);
        return false;
    }
    let mut v: u32 = 0;
    let mut i: usize = start;
    while i < end
        invariant
            start <= i <= end <= b@.len(),
            end - start <= 3,
            forall|k: int| start <= k < end ==> is_digit(#[trigger] b@[k]),
            v == decimal(b@.subrange(start as int, i as int)),
            v <= 999,
            i - start < 3 ==> v <= 99,
            i - start < 2 ==> v <= 9,
            i == start ==> v == 0,
        decreases end - i,
    {
        assert(is_digit(b@[i as int]));
        let d: u32 = (b[i] - 48) as u32;
        proof {
            let next = b@.subrange(start as int, i + 1);
            assert(next.drop_last() =~= b@.subrange(start as int, i as int));
            assert(next.last() == b@[i as int]);
        }
        v = v * 10 + d;
        i += 1;
    }
    assert forall|k: int| 0 <= k < part.len() implies is_digit(#[trigger] part[k]) by {
        assert(part[k] == b@[start + k]);
    }
    assert(part[0] == b@[start as int]);
    v <= 255
}

/// Whether the bytes `b` write an IPv4 address in dotted-quad form.
pub fn is_ipv4_text(b: &[u8]) -> (r: bool)
    ensures
        r == is_ipv4(b@),
{
    let ghost s = b@;
    let e1 = digits_end(b, 0);
    if e1 >= b.len() || b[e1] != 46 || !octet_ok(b, 0, e1) {
        proof {
            if is_ipv4(s) {
                let (x, y, z) = choose|x: int, y: int, z: int| splits_at(s, x, y, z);
                lemma_octet_end(s, 0, x, e1 as int);
            }
        }
        return false;
    }
    let e2 = digits_end(b, e1 + 1);
    if e2 >= b.len() || b[e2] != 46 || !octet_ok(b, e1 + 1, e2) {
        proof {
            if is_ipv4(s) {
                let (x, y, z) = choose|x: int, y: int, z: int| splits_at(s, x, y, z);
                lemma_octet_end(s, 0, x, e1 as int);
                lemma_octet_end(s, x + 1, y, e2 as int);
            }
        }
        return false;
    }
    let e3 = digits_end(b, e2 + 1);
    if e3 >= b.len() || b[e3] != 46 || !octet_ok(b, e2 + 1, e3) {
        proof {
            if is_ipv4(s) {
                let (x, y, z) = choose|x: int, y: int, z: int| splits_at(s, x, y, z);
                lemma_octet_end(s, 0, x, e1 as int);
                lemma_octet_end(s, x + 1, y, e2 as int);
                lemma_octet_end(s, y + 1, z, e3 as int);
            }
        }
        return false;
    }
    let e4 = digits_end(b, e3 + 1);
    if e4 != b.len() || !octet_ok(b, e3 + 1, e4) {
        proof {
            if is_ipv4(s) {
                let (x, y, z) = choose|x: int, y: int, z: int| splits_at(s, x, y, z);
                lemma_octet_end(s, 0, x, e1 as int);
                lemma_octet_end(s, x + 1, y, e2 as int);
                lemma_octet_end(s, y + 1, z, e3 as int);
                lemma_octet_end(s, z + 1, s.len() as int, e4 as int);
            }
        }
        return false;
    }
    assert(splits_at(s, e1 as int, e2 as int, e3 as int));
    true
}

/// The text `ip` is a dotted-quad address and the port is not zero.
pub open spec fn endpoint_ok(ip: Seq<char>, port: u16) -> bool {
    is_ipv4(encode_utf8(ip)) && port != 0
}

/// Whether a server record may enter the registry: see [`endpoint_ok`].
pub fn server_is_valid(rec: &Server) -> (r: bool)
    ensures
        r == endpoint_ok(rec@.ip, rec@.port),
{
    rec.port != 0 && is_ipv4_text(rec.ip.as_str().as_bytes())
}

/// A portal as a request writes it: the colour components are whatever
/// integers the request holds.
#[allow(non_snake_case)]
#[derive(Clone, Copy, Debug, PartialEq, Eq, Structural)]
pub struct PortalRequest {
    pub index: u32,
    pub frameBlockId: i32,
    pub lightWithItemId: i32,
    pub color_b: i64,
    pub color_g: i64,
    pub color_r: i64,
    pub configId: u128,
}

/// `c` is a colour component: not negative, and no more than 255.
pub open spec fn color_ok(c: i64) -> bool {
    0 <= c <= 255
}

/// All three colour components of `req` are in range.
pub open spec fn portal_ok(req: PortalRequest) -> bool {
    color_ok(req.color_b) && color_ok(req.color_g) && color_ok(req.color_r)
}

/// The portal that a valid request writes.
pub open spec fn portal_of(req: PortalRequest) -> Portal {
    Portal {
        index: req.index,
        frameBlockId: req.frameBlockId,
        lightWithItemId: req.lightWithItemId,
        color_b: req.color_b as u8,
        color_g: req.color_g as u8,
        color_r: req.color_r as u8,
        configId: req.configId,
    }
}

/// Turns a request into a portal, or refuses it for a colour component
/// that is negative or above 255.
pub fn validate_portal(req: PortalRequest) -> (r: Result<Portal, Error>)
    ensures
        r == (if portal_ok(req) {
            Ok::<Portal, Error>(portal_of(req))
        } else {
            Err::<Portal, Error>(Error::ValidationError)
        }),
{
    if req.color_b < 0 || req.color_b > 255 || req.color_g < 0 || req.color_g > 255 || req.color_r
        < 0 || req.color_r > 255 {
        return Err(Error::ValidationError);
    }
    Ok(
        Portal {
            index: req.index,
            frameBlockId: req.frameBlockId,
            lightWithItemId: req.lightWithItemId,
            color_b: req.color_b as u8,
            color_g: req.color_g as u8,
            color_r: req.color_r as u8,
            configId: req.configId,
        },
    )
}

} // verus!
