//! Request building and the challenge-token handshake. The info request
//! carries no challenge field at first and gets the token appended on retry;
//! the players and rules requests always carry a 4-byte placeholder that the
//! token overwrites in place. Either way one resend at most is owed.

use vstd::prelude::*;

use crate::errors::Error;
use crate::info::INFO_RESPONSE_HEADER;

verus! {

/// Marker byte of a challenge response.
pub const S2C_CHALLENGE: u8 = 0x41;

/// Request-type byte of an info query.
pub const INFO_REQUEST_HEADER: u8 = 0x54;

/// Request-type byte of a players query.
pub const PLAYER_REQUEST_HEADER: u8 = 0x55;

/// Request-type byte of a rules query.
pub const RULES_REQUEST_HEADER: u8 = 0x56;

/// The info request: single-packet header, request-type byte, then the
/// protocol's fixed query string with its terminator.
pub open spec fn info_request() -> Seq<u8> {
    seq![
        0xFFu8, 0xFF, 0xFF, 0xFF, INFO_REQUEST_HEADER,
        0x53, 0x6F, 0x75, 0x72, 0x63, 0x65, 0x20,  // "Source "
        0x45, 0x6E, 0x67, 0x69, 0x6E, 0x65, 0x20,  // "Engine "
        0x51, 0x75, 0x65, 0x72, 0x79, 0x00,  // "Query\0"
    ]
}

/// A players or rules request: single-packet header, the request-type byte,
/// then the 4-byte challenge placeholder.
pub open spec fn challenge_request(header: u8) -> Seq<u8> {
    seq![0xFFu8, 0xFF, 0xFF, 0xFF, header, 0xFF, 0xFF, 0xFF, 0xFF]
}

/// Builds the info request bytes.
pub fn build_info_request() -> (r: Vec<u8>)
    ensures
        r@ == info_request(),
{
    let mut v: Vec<u8> = Vec::new();
    v.push(0xFF);
    v.push(0xFF);
    v.push(0xFF);
    v.push(0xFF);
    v.push(INFO_REQUEST_HEADER);
    v.push(0x53);
    v.push(0x6F);
    v.push(0x75);
    v.push(0x72);
    v.push(0x63);
    v.push(0x65);
    v.push(0x20);
    v.push(0x45);
    v.push(0x6E);
    v.push(0x67);
    v.push(0x69);
    v.push(0x6E);
    v.push(0x65);
    v.push(0x20);
    v.push(0x51);
    v.push(0x75);
    v.push(0x65);
    v.push(0x72);
    v.push(0x79);
    v.push(0x00);
    proof {
        assert(v@ =~= info_request());
    }
    v
}

/// Builds a players or rules request with its challenge placeholder.
pub fn build_challenge_request(header: u8) -> (r: Vec<u8>)
    ensures
        r@ == challenge_request(header),
{
    let mut v: Vec<u8> = Vec::new();
    v.push(0xFF);
    v.push(0xFF);
    v.push(0xFF);
    v.push(0xFF);
    v.push(header);
    v.push(0xFF);
    v.push(0xFF);
    v.push(0xFF);
    v.push(0xFF);
    proof {
        assert(v@ =~= challenge_request(header));
    }
    v
}

/// What to do with the response to a request: hand the payload to the
/// decoder, or send the corrected request once more.
#[derive(Debug, PartialEq)]
pub enum Exchange {
    /// The payload is final; decode it.
    Final(Vec<u8>),
    /// The server demanded its challenge token; resend these bytes.
    Resend(Vec<u8>),
}

pub ghost enum ExchangeV {
    Final(Seq<u8>),
    Resend(Seq<u8>),
}

impl View for Exchange {
    type V = ExchangeV;

    open spec fn view(&self) -> ExchangeV {
        match self {
            Exchange::Final(p) => ExchangeV::Final(p@),
            Exchange::Resend(p) => ExchangeV::Resend(p@),
        }
    }
}

/// The info flow's verdict on a first response: the info payload is final; a
/// challenge response has its 4-byte token appended to the original request
/// for the resend; any other leading byte is fatal.
pub open spec fn info_step(payload: Seq<u8>, request: Seq<u8>) -> Result<ExchangeV, Error> {
    if payload.len() < 1 {
        Err(Error::Truncated)
    } else if payload[0] == INFO_RESPONSE_HEADER {
        Ok(ExchangeV::Final(payload))
    } else if payload[0] == S2C_CHALLENGE {
        if payload.len() < 5 {
            Err(Error::Truncated)
        } else {
            Ok(ExchangeV::Resend(request + payload.subrange(1, 5)))
        }
    } else {
        Err(Error::InvalidHeader { expected: S2C_CHALLENGE, found: payload[0] })
    }
}

/// The players/rules flow's verdict on a first response: a challenge
/// response has its token overwrite the placeholder, bytes 5 through 8 of
/// the request, for the resend; anything else is already final — servers
/// that skip the handshake are tolerated.
pub open spec fn challenge_step(payload: Seq<u8>, request: Seq<u8>) -> Result<ExchangeV, Error> {
    if payload.len() < 1 {
        Err(Error::Truncated)
    } else if payload[0] != S2C_CHALLENGE {
        Ok(ExchangeV::Final(payload))
    } else if payload.len() < 5 {
        Err(Error::Truncated)
    } else {
        Ok(ExchangeV::Resend(request.subrange(0, 5) + payload.subrange(1, 5)))
    }
}

/// Decides the info flow's next move from the first response.
pub fn info_response_step(payload: Vec<u8>, request: &Vec<u8>) -> (r: Result<Exchange, Error>)
    ensures
        match r {
            Ok(step) => info_step(payload@, request@) == Ok::<ExchangeV, Error>(step@),
            Err(e) => info_step(payload@, request@) == Err::<ExchangeV, Error>(e),
        },
{
    if payload.len() < 1 {
        return Err(Error::Truncated);
    }
    let b0 = payload[0];
    if b0 == INFO_RESPONSE_HEADER {
        Ok(Exchange::Final(payload))
    } else if b0 == S2C_CHALLENGE {
        if payload.len() < 5 {
            return Err(Error::Truncated);
        }
        let mut req: Vec<u8> = Vec::new();
        let mut k: usize = 0;
        while k < request.len()
            invariant
                k <= request@.len(),
                req@ == request@.subrange(0, k as int),
            decreases request@.len() - k,
        {
            let b = request[k];
            req.push(b);
            proof {
                assert(request@.subrange(0, k as int + 1) =~= request@.subrange(
                    0,
                    k as int,
                ).push(request@[k as int]));
            }
            k = k + 1;
        }
        req.push(payload[1]);
        req.push(payload[2]);
        req.push(payload[3]);
        req.push(payload[4]);
        proof {
            assert(request@.subrange(0, request@.len() as int) =~= request@);
            assert(req@ =~= request@ + payload@.subrange(1, 5));
        }
        Ok(Exchange::Resend(req))
    } else {
        Err(Error::InvalidHeader { expected: S2C_CHALLENGE, found: b0 })
    }
}

/// Decides the players/rules flow's next move from the first response. The
/// request must be one that `build_challenge_request` made: nine bytes, the
/// last four of them the placeholder the token overwrites.
pub fn challenge_response_step(payload: Vec<u8>, request: &Vec<u8>) -> (r: Result<Exchange, Error>)
    requires
        request@.len() == 9,
    ensures
        match r {
            Ok(step) => challenge_step(payload@, request@) == Ok::<ExchangeV, Error>(step@),
            Err(e) => challenge_step(payload@, request@) == Err::<ExchangeV, Error>(e),
        },
{
    if payload.len() < 1 {
        return Err(Error::Truncated);
    }
    let b0 = payload[0];
    if b0 != S2C_CHALLENGE {
        Ok(Exchange::Final(payload))
    } else if payload.len() < 5 {
        Err(Error::Truncated)
    } else {
        let mut req: Vec<u8> = Vec::new();
        req.push(request[0]);
        req.push(request[1]);
        req.push(request[2]);
        req.push(request[3]);
        req.push(request[4]);
        req.push(payload[1]);
        req.push(payload[2]);
        req.push(payload[3]);
        req.push(payload[4]);
        proof {
            assert(req@ =~= request@.subrange(0, 5) + payload@.subrange(1, 5));
        }
        Ok(Exchange::Resend(req))
    }
}

/// A first response to an info request whose leading byte is neither the
/// info response marker nor the challenge marker is fatal, naming the
/// challenge marker as what was expected and the stray byte as what came.
pub proof fn lemma_unknown_leading_byte(payload: Seq<u8>, request: Seq<u8>)
    requires
        payload.len() >= 1,
        payload[0] != INFO_RESPONSE_HEADER,
        payload[0] != S2C_CHALLENGE,
    ensures
        info_step(payload, request) == Err::<ExchangeV, Error>(
            Error::InvalidHeader { expected: S2C_CHALLENGE, found: payload[0] },
        ),
{
}

} // verus!
