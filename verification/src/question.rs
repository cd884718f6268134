use crate::error::DecodeError;
use crate::field::{spec_class_from_u16, spec_qtype_from_u16, Class, QType};
use crate::name::{
    encode_name, labels_from_bytes, name_wire, parse_name, valid_name, MAX_POINTER_DEPTH,
};
use vstd::prelude::*;

verus! {

/// One question-section entry: a domain name with the record type and
/// class being asked about.
#[derive(Debug)]
pub struct Question {
    pub name: String,
    pub qtype: QType,
    pub class: Class,
}

impl Clone for Question {
    /// A question equal to this one, with its own copy of the name.
    fn clone(&self) -> (r: Self)
        ensures
            r == *self,
    {
        Question { name: self.name.clone(), qtype: self.qtype, class: self.class }
    }
}

/// The question denoted by `data` at `pos`: its name, type and class,
/// with the offset just past the class field. Fails with the name
/// codec's errors, with `TruncatedInput` when fewer than 4 bytes follow
/// the name, and with `UnknownField` on a type or class value outside
/// the enumerated sets.
pub open spec fn parse_question(data: Seq<u8>, pos: int) -> Result<
    ((Seq<char>, QType, Class), int),
    DecodeError,
> {
    match parse_name(data, pos, MAX_POINTER_DEPTH as int) {
        Err(e) => Err(e),
        Ok(np) => {
            let p = np.1;
            if p + 4 > data.len() {
                Err(DecodeError::TruncatedInput)
            } else {
                let tv = ((data[p] as u16) << 8) | (data[p + 1] as u16);
                let cv = ((data[p + 2] as u16) << 8) | (data[p + 3] as u16);
                match spec_qtype_from_u16(tv) {
                    Err(e) => Err(e),
                    Ok(qt) => match spec_class_from_u16(cv) {
                        Err(e) => Err(e),
                        Ok(cl) => Ok(((np.0, qt, cl), p + 4)),
                    },
                }
            }
        },
    }
}

/// The decoded question and next offset agree with what
/// `parse_question` says.
pub open spec fn question_matches(
    r: Result<(Question, usize), DecodeError>,
    parsed: Result<((Seq<char>, QType, Class), int), DecodeError>,
) -> bool {
    match (r, parsed) {
        (Ok(q), Ok(s)) => {
            &&& q.0.name@ == s.0.0
            &&& q.0.qtype == s.0.1
            &&& q.0.class == s.0.2
            &&& q.1 as int == s.1
        },
        (Err(e), Err(pe)) => e == pe,
        _ => false,
    }
}

impl Question {
    /// A name the codec can encode: see `valid_name`.
    pub open spec fn wf(self) -> bool {
        valid_name(self.name@)
    }

    /// The wire form of this question: the encoded name, then the type
    /// and class as big-endian 16-bit values.
    pub open spec fn wire(self) -> Seq<u8> {
        name_wire(self.name@) + seq![
            (self.qtype.wire() >> 8) as u8,
            self.qtype.wire() as u8,
            (self.class.wire() >> 8) as u8,
            self.class.wire() as u8,
        ]
    }

    pub fn new(name: String, qtype: QType, class: Class) -> (r: Self)
        ensures
            r.name == name,
            r.qtype == qtype,
            r.class == class,
    {
        Self { name, qtype, class }
    }

    /// Encode this question exactly as `wire` describes.
    pub fn to_bytes(&self) -> (r: Vec<u8>)
        requires
            self.wf(),
        ensures
            r@ == self.wire(),
    {
        let mut bytes = encode_name(self.name.as_str());
        let qtype = self.qtype.to_u16();
        bytes.push((qtype >> 8) as u8);
        bytes.push(qtype as u8);
        let class = self.class.to_u16();
        bytes.push((class >> 8) as u8);
        bytes.push(class as u8);
        proof {
            assert(bytes@ =~= self.wire());
        }
        bytes
    }

    /// Decode a question from `buf` at `start_pos`, exactly as
    /// `parse_question` describes.
    pub fn from_bytes(buf: &[u8], start_pos: usize) -> (r: Result<(Question, usize), DecodeError>)
        ensures
            question_matches(r, parse_question(buf@, start_pos as int)),
    {
        let (name, p) = match labels_from_bytes(buf, start_pos) {
            Ok(np) => np,
            Err(e) => {
                return Err(e);
            },
        };
        if buf.len() < 4 || p > buf.len() - 4 {
            return Err(DecodeError::TruncatedInput);
        }
        let tv = ((buf[p] as u16) << 8) | (buf[p + 1] as u16);
        let cv = ((buf[p + 2] as u16) << 8) | (buf[p + 3] as u16);
        let qtype = match QType::from_u16(tv) {
            Ok(q) => q,
            Err(e) => {
                return Err(e);
            },
        };
        let class = match Class::from_u16(cv) {
            Ok(c) => c,
            Err(e) => {
                return Err(e);
            },
        };
        Ok((Question::new(name, qtype, class), p + 4))
    }
}

} // verus!
