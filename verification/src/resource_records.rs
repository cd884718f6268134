use crate::error::DecodeError;
use crate::field::{spec_class_from_u16, spec_qtype_from_u16, Class, QType};
use crate::name::{
    encode_name, labels_from_bytes, name_wire, parse_name, valid_name, MAX_POINTER_DEPTH,
};
use vstd::prelude::*;

verus! {

/// One answer-section entry: a name bound to typed resource data with a
/// time-to-live.
#[derive(Debug)]
pub struct ResourceRecord {
    pub name: String,
    pub qtype: QType,
    pub class: Class,
    pub ttl: u32,
    pub rdlength: u16,
    pub rdata: Vec<u8>,
}

/// Two records that denote the same answer: equal in every field, the
/// name and resource data compared by contents.
pub open spec fn rr_eq(a: ResourceRecord, b: ResourceRecord) -> bool {
    &&& a.name@ == b.name@
    &&& a.qtype == b.qtype
    &&& a.class == b.class
    &&& a.ttl == b.ttl
    &&& a.rdlength == b.rdlength
    &&& a.rdata@ == b.rdata@
}

impl Clone for ResourceRecord {
    /// A record denoting the same answer, with its own copies of the
    /// name and the resource data.
    fn clone(&self) -> (r: Self)
        ensures
            rr_eq(r, *self),
    {
        ResourceRecord {
            name: self.name.clone(),
            qtype: self.qtype,
            class: self.class,
            ttl: self.ttl,
            rdlength: self.rdlength,
            rdata: clone_bytes(&self.rdata),
        }
    }
}

/// A byte-for-byte copy of a byte vector.
fn clone_bytes(v: &Vec<u8>) -> (r: Vec<u8>)
    ensures
        r@ =~= v@,
{
    let mut r: Vec<u8> = Vec::new();
    let mut i: usize = 0;
    while i < v.len()
        invariant
            i <= v.len(),
            r@ == v@.subrange(0, i as int),
        decreases v.len() - i,
    {
        r.push(v[i]);
        proof {
            assert(v@.subrange(0, i + 1) =~= v@.subrange(0, i as int).push(v@[i as int]));
        }
        i = i + 1;
    }
    proof {
        assert(v@.subrange(0, v@.len() as int) =~= v@);
    }
    r
}

/// The record denoted by `data` at `pos`: name, type, class, ttl,
/// resource-data length and resource data, with the offset just past
/// the data. Each field is length-checked before it is read: a
/// shortfall fails with `TruncatedInput`, a type or class outside the
/// enumerated sets with `UnknownField`, and the name codec's errors
/// pass through.
pub open spec fn parse_record(data: Seq<u8>, pos: int) -> Result<
    ((Seq<char>, QType, Class, u32, u16, Seq<u8>), int),
    DecodeError,
> {
    match parse_name(data, pos, MAX_POINTER_DEPTH as int) {
        Err(e) => Err(e),
        Ok(np) => {
            let p = np.1;
            if p + 4 > data.len() {
                Err(DecodeError::TruncatedInput)
            } else {
                let tv = ((data[p] as u16) << 8) | (data[p + 1] as u16);
                let cv = ((data[p + 2] as u16) << 8) | (data[p + 3] as u16);
                match spec_qtype_from_u16(tv) {
                    Err(e) => Err(e),
                    Ok(qt) => match spec_class_from_u16(cv) {
                        Err(e) => Err(e),
                        Ok(cl) => {
                            if p + 10 > data.len() {
                                Err(DecodeError::TruncatedInput)
                            } else {
                                let ttl = (((data[p + 4] as u32) << 24) | ((data[p + 5] as u32)
                                    << 16) | ((data[p + 6] as u32) << 8) | (data[p + 7] as u32));
                                let rdlength = ((data[p + 8] as u16) << 8) | (data[p + 9] as u16);
                                if p + 10 + rdlength > data.len() {
                                    Err(DecodeError::TruncatedInput)
                                } else {
                                    Ok(
                                        (
                                            (
                                                np.0,
                                                qt,
                                                cl,
                                                ttl,
                                                rdlength,
                                                data.subrange(p + 10, p + 10 + rdlength),
                                            ),
                                            p + 10 + rdlength,
                                        ),
                                    )
                                }
                            }
                        },
                    },
                }
            }
        },
    }
}

/// The decoded record and next offset agree with what `parse_record`
/// says.
pub open spec fn record_matches(
    r: Result<(ResourceRecord, usize), DecodeError>,
    parsed: Result<((Seq<char>, QType, Class, u32, u16, Seq<u8>), int), DecodeError>,
) -> bool {
    match (r, parsed) {
        (Ok(rr), Ok(s)) => {
            &&& rr.0.name@ == s.0.0
            &&& rr.0.qtype == s.0.1
            &&& rr.0.class == s.0.2
            &&& rr.0.ttl == s.0.3
            &&& rr.0.rdlength == s.0.4
            &&& rr.0.rdata@ == s.0.5
            &&& rr.1 as int == s.1
        },
        (Err(e), Err(pe)) => e == pe,
        _ => false,
    }
}

impl ResourceRecord {
    /// A record the codec can encode: the name is encodable and the
    /// resource data's length fits the 16-bit length field.
    pub open spec fn wf(self) -> bool {
        &&& valid_name(self.name@)
        &&& self.rdata@.len() <= 0xFFFF
    }

    /// The wire form of this record: the encoded name, type, class, ttl,
    /// then the resource-data length recomputed from the data itself
    /// (never trusted from the `rdlength` field), then the data.
    pub open spec fn wire(self) -> Seq<u8> {
        name_wire(self.name@) + seq![
            (self.qtype.wire() >> 8) as u8,
            self.qtype.wire() as u8,
            (self.class.wire() >> 8) as u8,
            self.class.wire() as u8,
            (self.ttl >> 24) as u8,
            (self.ttl >> 16) as u8,
            (self.ttl >> 8) as u8,
            self.ttl as u8,
            ((self.rdata@.len() as u16) >> 8) as u8,
            (self.rdata@.len() as u16) as u8,
        ] + self.rdata@
    }

    pub fn new(
        name: String,
        qtype: QType,
        class: Class,
        ttl: u32,
        rdlength: u16,
        rdata: Vec<u8>,
    ) -> (r: Self)
        ensures
            r.name == name,
            r.qtype == qtype,
            r.class == class,
            r.ttl == ttl,
            r.rdlength == rdlength,
            r.rdata == rdata,
    {
        Self { name, qtype, class, ttl, rdlength, rdata }
    }

    /// Encode this record exactly as `wire` describes, recomputing the
    /// length field from the resource data.
    pub fn to_bytes(&self) -> (r: Vec<u8>)
        requires
            self.wf(),
        ensures
            r@ == self.wire(),
    {
        let mut bytes = encode_name(self.name.as_str());
        let qtype = self.qtype.to_u16();
        bytes.push((qtype >> 8) as u8);
        bytes.push(qtype as u8);
        let class = self.class.to_u16();
        bytes.push((class >> 8) as u8);
        bytes.push(class as u8);
        bytes.push((self.ttl >> 24) as u8);
        bytes.push((self.ttl >> 16) as u8);
        bytes.push((self.ttl >> 8) as u8);
        bytes.push(self.ttl as u8);
        let rdlength = self.rdata.len() as u16;
        bytes.push((rdlength >> 8) as u8);
        bytes.push(rdlength as u8);
        let ghost head = bytes@;
        let mut k: usize = 0;
        while k < self.rdata.len()
            invariant
                k <= self.rdata@.len(),
                bytes@ == head + self.rdata@.subrange(0, k as int),
            decreases self.rdata@.len() - k,
        {
            bytes.push(self.rdata[k]);
            proof {
                assert(self.rdata@.subrange(0, k + 1) =~= self.rdata@.subrange(0, k as int).push(
                    self.rdata@[k as int],
                ));
            }
            k = k + 1;
        }
        proof {
            assert(self.rdata@.subrange(0, self.rdata@.len() as int) =~= self.rdata@);
            assert(bytes@ =~= self.wire());
        }
        bytes
    }

    /// Decode a record from `buf` at `start_pos`, exactly as
    /// `parse_record` describes.
    pub fn from_bytes(buf: &[u8], start_pos: usize) -> (r: Result<
        (ResourceRecord, usize),
        DecodeError,
    >)
        ensures
            record_matches(r, parse_record(buf@, start_pos as int)),
    {
        let (name, p) = match labels_from_bytes(buf, start_pos) {
            Ok(np) => np,
            Err(e) => {
                return Err(e);
            },
        };
        if buf.len() < 4 || p > buf.len() - 4 {
            return Err(DecodeError::TruncatedInput);
        }
        let tv = ((buf[p] as u16) << 8) | (buf[p + 1] as u16);
        let cv = ((buf[p + 2] as u16) << 8) | (buf[p + 3] as u16);
        let qtype = match QType::from_u16(tv) {
            Ok(q) => q,
            Err(e) => {
                return Err(e);
            },
        };
        let class = match Class::from_u16(cv) {
            Ok(c) => c,
            Err(e) => {
                return Err(e);
            },
        };
        if buf.len() < 10 || p > buf.len() - 10 {
            return Err(DecodeError::TruncatedInput);
        }
        let ttl = ((buf[p + 4] as u32) << 24) | ((buf[p + 5] as u32) << 16) | ((buf[p + 6] as u32)
            << 8) | (buf[p + 7] as u32);
        let rdlength = ((buf[p + 8] as u16) << 8) | (buf[p + 9] as u16);
        if (rdlength as usize) > buf.len() - p - 10 {
            return Err(DecodeError::TruncatedInput);
        }
        let mut rdata: Vec<u8> = Vec::new();
        let mut k: usize = 0;
        while k < rdlength as usize
            invariant
                k <= rdlength as usize,
                p + 10 + rdlength <= buf@.len(),
                buf@.len() <= usize::MAX,
                rdata@ == buf@.subrange(p + 10, p + 10 + k),
            decreases rdlength as int - k,
        {
            rdata.push(buf[p + 10 + k]);
            proof {
                assert(buf@.subrange(p + 10, p + 10 + k + 1) =~= buf@.subrange(
                    p + 10,
                    p + 10 + k,
                ).push(buf@[p + 10 + k]));
            }
            k = k + 1;
        }
        Ok((ResourceRecord::new(name, qtype, class, ttl, rdlength, rdata), p + 10 + rdlength as usize))
    }
}

} // verus!
