use crate::error::DecodeError;
use vstd::prelude::*;

verus! {

/// The fixed 12-byte DNS message header: id, flag bits, opcode, response
/// code, and the four 16-bit section counts.
#[derive(Debug, Clone, Copy, PartialEq, Eq, Structural)]
pub struct Header {
    pub id: u16,
    pub query_response: bool,
    pub opcode: u8,
    pub authoritative_answer: bool,
    pub truncated_msg: bool,
    pub recursion_desired: bool,
    pub recursion_available: bool,
    pub reserved: u8,
    pub response_code: u8,
    pub question_count: u16,
    pub answer_count: u16,
    pub authority_count: u16,
    pub additional_count: u16,
}

impl Default for Header {
    /// A header with every field zeroed.
    fn default() -> (r: Header)
        ensures
            r == Header::zeroed(),
    {
        Header {
            id: 0,
            query_response: false,
            opcode: 0,
            authoritative_answer: false,
            truncated_msg: false,
            recursion_desired: false,
            recursion_available: false,
            reserved: 0,
            response_code: 0,
            question_count: 0,
            answer_count: 0,
            authority_count: 0,
            additional_count: 0,
        }
    }
}

/// Byte 2 of the wire header: qr(1) | opcode(4) | aa(1) | tc(1) | rd(1).
pub open spec fn spec_flags_hi(h: Header) -> u8 {
    (if h.query_response {
        0x80u8
    } else {
        0u8
    }) | ((h.opcode & 0x0F) << 3) | (if h.authoritative_answer {
        0x04u8
    } else {
        0u8
    }) | (if h.truncated_msg {
        0x02u8
    } else {
        0u8
    }) | (if h.recursion_desired {
        0x01u8
    } else {
        0u8
    })
}

/// Byte 3 of the wire header: ra(1) | reserved(3) | rcode(4).
pub open spec fn spec_flags_lo(h: Header) -> u8 {
    (if h.recursion_available {
        0x80u8
    } else {
        0u8
    }) | ((h.reserved & 0x07) << 4) | (h.response_code & 0x0F)
}

/// The exact 12 bytes a header encodes to: big-endian id, the two flag
/// bytes, then the four counts as big-endian 16-bit values.
pub open spec fn spec_header_to_bytes(h: Header) -> Seq<u8> {
    seq![
        (h.id >> 8) as u8,
        h.id as u8,
        spec_flags_hi(h),
        spec_flags_lo(h),
        (h.question_count >> 8) as u8,
        h.question_count as u8,
        (h.answer_count >> 8) as u8,
        h.answer_count as u8,
        (h.authority_count >> 8) as u8,
        h.authority_count as u8,
        (h.additional_count >> 8) as u8,
        h.additional_count as u8,
    ]
}

/// The header denoted by the first 12 bytes of `data`: the exact inverse
/// bit-masking of `spec_header_to_bytes`.
pub open spec fn spec_header_from_bytes(data: Seq<u8>) -> Header
    recommends
        data.len() >= 12,
{
    let flags = ((data[2] as u16) << 8) | (data[3] as u16);
    Header {
        id: ((data[0] as u16) << 8) | (data[1] as u16),
        query_response: flags & 0x8000 != 0,
        opcode: ((flags & 0x7800) >> 11) as u8,
        authoritative_answer: flags & 0x0400 != 0,
        truncated_msg: flags & 0x0200 != 0,
        recursion_desired: flags & 0x0100 != 0,
        recursion_available: flags & 0x0080 != 0,
        reserved: ((flags & 0x0070) >> 4) as u8,
        response_code: (flags & 0x000F) as u8,
        question_count: ((data[4] as u16) << 8) | (data[5] as u16),
        answer_count: ((data[6] as u16) << 8) | (data[7] as u16),
        authority_count: ((data[8] as u16) << 8) | (data[9] as u16),
        additional_count: ((data[10] as u16) << 8) | (data[11] as u16),
    }
}

impl Header {
    /// The all-zero header that `Default` returns.
    pub open spec fn zeroed() -> Header {
        Header {
            id: 0,
            query_response: false,
            opcode: 0,
            authoritative_answer: false,
            truncated_msg: false,
            recursion_desired: false,
            recursion_available: false,
            reserved: 0,
            response_code: 0,
            question_count: 0,
            answer_count: 0,
            authority_count: 0,
            additional_count: 0,
        }
    }

    /// A representable header: every sub-byte field fits its bit width.
    pub open spec fn wf(self) -> bool {
        &&& self.opcode < 16
        &&& self.reserved < 8
        &&& self.response_code < 16
    }

    pub fn id(&mut self, id: u16) -> (r: &mut Self)
        ensures
            *r == (Header { id: id, ..*old(self) }),
            *final(self) == *final(r),
    {
        self.id = id;
        self
    }

    pub fn query_response(&mut self, query_response: bool) -> (r: &mut Self)
        ensures
            *r == (Header { query_response: query_response, ..*old(self) }),
            *final(self) == *final(r),
    {
        self.query_response = query_response;
        self
    }

    pub fn opcode(&mut self, opcode: u8) -> (r: &mut Self)
        ensures
            *r == (Header { opcode: opcode, ..*old(self) }),
            *final(self) == *final(r),
    {
        self.opcode = opcode;
        self
    }

    pub fn authoritative_answer(&mut self, authoritative_answer: bool) -> (r: &mut Self)
        ensures
            *r == (Header { authoritative_answer: authoritative_answer, ..*old(self) }),
            *final(self) == *final(r),
    {
        self.authoritative_answer = authoritative_answer;
        self
    }

    pub fn truncated_msg(&mut self, truncated_msg: bool) -> (r: &mut Self)
        ensures
            *r == (Header { truncated_msg: truncated_msg, ..*old(self) }),
            *final(self) == *final(r),
    {
        self.truncated_msg = truncated_msg;
        self
    }

    pub fn recursion_desired(&mut self, recursion_desired: bool) -> (r: &mut Self)
        ensures
            *r == (Header { recursion_desired: recursion_desired, ..*old(self) }),
            *final(self) == *final(r),
    {
        self.recursion_desired = recursion_desired;
        self
    }

    pub fn recursion_available(&mut self, recursion_available: bool) -> (r: &mut Self)
        ensures
            *r == (Header { recursion_available: recursion_available, ..*old(self) }),
            *final(self) == *final(r),
    {
        self.recursion_available = recursion_available;
        self
    }

    pub fn reserved(&mut self, reserved: u8) -> (r: &mut Self)
        ensures
            *r == (Header { reserved: reserved, ..*old(self) }),
            *final(self) == *final(r),
    {
        self.reserved = reserved;
        self
    }

    pub fn response_code(&mut self, response_code: u8) -> (r: &mut Self)
        ensures
            *r == (Header { response_code: response_code, ..*old(self) }),
            *final(self) == *final(r),
    {
        self.response_code = response_code;
        self
    }

    pub fn question_count(&mut self, question_count: u16) -> (r: &mut Self)
        ensures
            *r == (Header { question_count: question_count, ..*old(self) }),
            *final(self) == *final(r),
    {
        self.question_count = question_count;
        self
    }

    pub fn answer_count(&mut self, answer_count: u16) -> (r: &mut Self)
        ensures
            *r == (Header { answer_count: answer_count, ..*old(self) }),
            *final(self) == *final(r),
    {
        self.answer_count = answer_count;
        self
    }

    pub fn authority_count(&mut self, authority_count: u16) -> (r: &mut Self)
        ensures
            *r == (Header { authority_count: authority_count, ..*old(self) }),
            *final(self) == *final(r),
    {
        self.authority_count = authority_count;
        self
    }

    pub fn additional_count(&mut self, additional_count: u16) -> (r: &mut Self)
        ensures
            *r == (Header { additional_count: additional_count, ..*old(self) }),
            *final(self) == *final(r),
    {
        self.additional_count = additional_count;
        self
    }

    /// A copy of this header, so a builder chain ends in an owned value.
    pub fn build(&self) -> (r: Header)
        ensures
            r == *self,
    {
        Header {
            id: self.id,
            query_response: self.query_response,
            opcode: self.opcode,
            authoritative_answer: self.authoritative_answer,
            truncated_msg: self.truncated_msg,
            recursion_desired: self.recursion_desired,
            recursion_available: self.recursion_available,
            reserved: self.reserved,
            response_code: self.response_code,
            question_count: self.question_count,
            answer_count: self.answer_count,
            authority_count: self.authority_count,
            additional_count: self.additional_count,
        }
    }

    pub fn inc_qcount(&mut self)
        requires
            old(self).question_count < 0xFFFF,
        ensures
            *final(self) == (Header { question_count: (old(self).question_count + 1) as u16, ..*old(self) }),
    {
        self.question_count = self.question_count + 1;
    }

    pub fn inc_ancount(&mut self)
        requires
            old(self).answer_count < 0xFFFF,
        ensures
            *final(self) == (Header { answer_count: (old(self).answer_count + 1) as u16, ..*old(self) }),
    {
        self.answer_count = self.answer_count + 1;
    }

    /// Encode this header into its exact 12-byte wire form.
    pub fn to_bytes(&self) -> (r: [u8; 12])
        ensures
            r@ == spec_header_to_bytes(*self),
    {
        let b2: u8 = (if self.query_response {
            0x80u8
        } else {
            0u8
        }) | ((self.opcode & 0x0F) << 3) | (if self.authoritative_answer {
            0x04u8
        } else {
            0u8
        }) | (if self.truncated_msg {
            0x02u8
        } else {
            0u8
        }) | (if self.recursion_desired {
            0x01u8
        } else {
            0u8
        });
        let b3: u8 = (if self.recursion_available {
            0x80u8
        } else {
            0u8
        }) | ((self.reserved & 0x07) << 4) | (self.response_code & 0x0F);
        let r: [u8; 12] = [
            (self.id >> 8) as u8,
            self.id as u8,
            b2,
            b3,
            (self.question_count >> 8) as u8,
            self.question_count as u8,
            (self.answer_count >> 8) as u8,
            self.answer_count as u8,
            (self.authority_count >> 8) as u8,
            self.authority_count as u8,
            (self.additional_count >> 8) as u8,
            self.additional_count as u8,
        ];
        proof {
            assert(r@ =~= spec_header_to_bytes(*self));
        }
        r
    }

    /// Decode a header from the first 12 bytes of `data`, failing with
    /// `TruncatedInput` when fewer than 12 bytes are supplied.
    pub fn from_bytes(data: &[u8]) -> (r: Result<Header, DecodeError>)
        ensures
            data@.len() < 12 ==> r == Err::<Header, DecodeError>(DecodeError::TruncatedInput),
            data@.len() >= 12 ==> r == Ok::<Header, DecodeError>(spec_header_from_bytes(data@)),
    {
        if data.len() < 12 {
            return Err(DecodeError::TruncatedInput);
        }
        let flags: u16 = ((data[2] as u16) << 8) | (data[3] as u16);
        Ok(
            Header {
                id: ((data[0] as u16) << 8) | (data[1] as u16),
                query_response: flags & 0x8000 != 0,
                opcode: ((flags & 0x7800) >> 11) as u8,
                authoritative_answer: flags & 0x0400 != 0,
                truncated_msg: flags & 0x0200 != 0,
                recursion_desired: flags & 0x0100 != 0,
                recursion_available: flags & 0x0080 != 0,
                reserved: ((flags & 0x0070) >> 4) as u8,
                response_code: (flags & 0x000F) as u8,
                question_count: ((data[4] as u16) << 8) | (data[5] as u16),
                answer_count: ((data[6] as u16) << 8) | (data[7] as u16),
                authority_count: ((data[8] as u16) << 8) | (data[9] as u16),
                additional_count: ((data[10] as u16) << 8) | (data[11] as u16),
            },
        )
    }
}

/// Splitting a 16-bit value into its big-endian bytes and recombining
/// them gives the value back.
proof fn lemma_u16_be_round_trip(c: u16)
    by (bit_vector)
    ensures
        ((((c >> 8) as u8) as u16) << 8) | ((c as u8) as u16) == c,
{
}

/// Every decoded header is representable: the sub-byte fields decode
/// into their bit widths, so the round-trip law applies to it.
pub proof fn lemma_decoded_header_wf(data: Seq<u8>)
    requires
        data.len() >= 12,
    ensures
        spec_header_from_bytes(data).wf(),
{
    let flags = ((data[2] as u16) << 8) | (data[3] as u16);
    assert((((flags & 0x7800) >> 11) as u8) < 16 && (((flags & 0x0070) >> 4) as u8) < 8 && ((flags
        & 0x000F) as u8) < 16) by (bit_vector);
}

/// Round-trip law: decoding the 12 bytes a well-formed header encodes to
/// yields that header again.
pub proof fn lemma_header_round_trip(h: Header)
    requires
        h.wf(),
    ensures
        spec_header_from_bytes(spec_header_to_bytes(h)) == h,
{
    let data = spec_header_to_bytes(h);
    let hi = spec_flags_hi(h);
    let lo = spec_flags_lo(h);
    assert(data[2] == hi && data[3] == lo);
    let qb: u8 = if h.query_response { 0x80u8 } else { 0u8 };
    let ab: u8 = if h.authoritative_answer { 0x04u8 } else { 0u8 };
    let tb: u8 = if h.truncated_msg { 0x02u8 } else { 0u8 };
    let rb: u8 = if h.recursion_desired { 0x01u8 } else { 0u8 };
    let rab: u8 = if h.recursion_available { 0x80u8 } else { 0u8 };
    let o = h.opcode;
    let z = h.reserved;
    let rc = h.response_code;
    assert(hi == qb | ((o & 0x0F) << 3) | ab | tb | rb);
    assert(lo == rab | ((z & 0x07) << 4) | (rc & 0x0F));
    let flags = ((hi as u16) << 8) | (lo as u16);
    assert((flags & 0x8000 != 0) == (qb == 0x80)
        && ((flags & 0x7800) >> 11) as u8 == o
        && (flags & 0x0400 != 0) == (ab == 0x04)
        && (flags & 0x0200 != 0) == (tb == 0x02)
        && (flags & 0x0100 != 0) == (rb == 0x01)
        && (flags & 0x0080 != 0) == (rab == 0x80)
        && ((flags & 0x0070) >> 4) as u8 == z
        && (flags & 0x000F) as u8 == rc) by (bit_vector)
        requires
            hi == qb | ((o & 0x0F) << 3) | ab | tb | rb,
            lo == rab | ((z & 0x07) << 4) | (rc & 0x0F),
            flags == ((hi as u16) << 8) | (lo as u16),
            qb == 0x80 || qb == 0,
            ab == 0x04 || ab == 0,
            tb == 0x02 || tb == 0,
            rb == 0x01 || rb == 0,
            rab == 0x80 || rab == 0,
            o < 16,
            z < 8,
            rc < 16,
    ;
    lemma_u16_be_round_trip(h.id);
    lemma_u16_be_round_trip(h.question_count);
    lemma_u16_be_round_trip(h.answer_count);
    lemma_u16_be_round_trip(h.authority_count);
    lemma_u16_be_round_trip(h.additional_count);
    assert(spec_header_from_bytes(data) == h);
}

} // verus!

