use crate::error::DecodeError;
use crate::field::{Class, QType};
use crate::header::{spec_header_from_bytes, spec_header_to_bytes, Header};
use crate::question::{parse_question, Question};
use crate::resource_records::{parse_record, rr_eq, ResourceRecord};
use vstd::prelude::*;

verus! {

/// A whole DNS message: a header, the question section and the answer
/// section, each owned outright.
#[derive(Debug)]
pub struct Packet {
    pub header: Header,
    pub questions: Vec<Question>,
    pub records: Vec<ResourceRecord>,
}

/// Two record lists that denote the same answers, element by element.
pub open spec fn rrs_eq(a: Seq<ResourceRecord>, b: Seq<ResourceRecord>) -> bool {
    &&& a.len() == b.len()
    &&& forall|i: int| 0 <= i < a.len() ==> rr_eq(#[trigger] a[i], b[i])
}

/// The header each sub-query of `split` carries: a copy of `h` whose
/// question count is forced to 1 and whose other counts are zeroed.
pub open spec fn split_header(h: Header) -> Header {
    Header {
        question_count: 1,
        answer_count: 0,
        authority_count: 0,
        additional_count: 0,
        ..h
    }
}

/// What `split` guarantees: one single-question sub-message per
/// question, in order, each with the adjusted header and no records.
pub open spec fn split_post(p: Packet, subs: Seq<Packet>) -> bool {
    &&& subs.len() == p.questions@.len()
    &&& forall|i: int| 0 <= i < subs.len() ==> (#[trigger] subs[i]).header == split_header(p.header)
    &&& forall|i: int| 0 <= i < subs.len() ==> (#[trigger] subs[i]).questions@ =~= seq![
        p.questions@[i],
    ]
    &&& forall|i: int| 0 <= i < subs.len() ==> (#[trigger] subs[i]).records@.len() == 0
}

/// All questions of a packet sequence, concatenated in order.
pub open spec fn concat_questions(ps: Seq<Packet>) -> Seq<Question>
    decreases ps.len(),
{
    if ps.len() == 0 {
        Seq::empty()
    } else {
        concat_questions(ps.drop_last()) + ps.last().questions@
    }
}

/// All records of a packet sequence, concatenated in order.
pub open spec fn concat_records(ps: Seq<Packet>) -> Seq<ResourceRecord>
    decreases ps.len(),
{
    if ps.len() == 0 {
        Seq::empty()
    } else {
        concat_records(ps.drop_last()) + ps.last().records@
    }
}

/// What `merge` guarantees: the first sub-message's header with both
/// the question and answer counts set to the number of sub-messages,
/// and the concatenated question and record lists in original order.
pub open spec fn merge_post(ps: Seq<Packet>, m: Packet) -> bool {
    &&& m.header == (Header {
        question_count: ps.len() as u16,
        answer_count: ps.len() as u16,
        ..ps[0].header
    })
    &&& m.questions@ == concat_questions(ps)
    &&& rrs_eq(m.records@, concat_records(ps))
}

impl Clone for Packet {
    /// A message denoting the same header, questions and answers.
    fn clone(&self) -> (r: Self)
        ensures
            r.header == self.header,
            r.questions@ == self.questions@,
            rrs_eq(r.records@, self.records@),
    {
        Packet {
            header: self.header,
            questions: clone_questions(&self.questions),
            records: clone_records(&self.records),
        }
    }
}

/// An element-by-element copy of a question list.
fn clone_questions(v: &Vec<Question>) -> (r: Vec<Question>)
    ensures
        r@ =~= v@,
{
    let mut r: Vec<Question> = Vec::new();
    let mut i: usize = 0;
    while i < v.len()
        invariant
            i <= v.len(),
            r@ == v@.subrange(0, i as int),
        decreases v.len() - i,
    {
        r.push(v[i].clone());
        proof {
            assert(v@.subrange(0, i + 1) =~= v@.subrange(0, i as int).push(v@[i as int]));
        }
        i = i + 1;
    }
    proof {
        assert(v@.subrange(0, v@.len() as int) =~= v@);
    }
    r
}

/// An element-by-element copy of a record list.
fn clone_records(v: &Vec<ResourceRecord>) -> (r: Vec<ResourceRecord>)
    ensures
        rrs_eq(r@, v@),
{
    let mut r: Vec<ResourceRecord> = Vec::new();
    let mut i: usize = 0;
    while i < v.len()
        invariant
            i <= v.len(),
            r@.len() == i,
            forall|k: int| 0 <= k < i ==> rr_eq(#[trigger] r@[k], v@[k]),
        decreases v.len() - i,
    {
        r.push(v[i].clone());
        i = i + 1;
    }
    r
}

impl Packet {
    /// Fan this message out: one single-question sub-message per
    /// question, in order, each carrying a copy of the header with its
    /// question count forced to 1 and all other counts zeroed.
    pub fn split(&self) -> (r: Vec<Packet>)
        ensures
            split_post(*self, r@),
    {
        let mut header = self.header;
        header.question_count = 1;
        header.answer_count = 0;
        header.authority_count = 0;
        header.additional_count = 0;
        let mut out: Vec<Packet> = Vec::new();
        let mut i: usize = 0;
        while i < self.questions.len()
            invariant
                i <= self.questions@.len(),
                header == split_header(self.header),
                out@.len() == i,
                forall|k: int| 0 <= k < i ==> (#[trigger] out@[k]).header == split_header(
                    self.header,
                ),
                forall|k: int| 0 <= k < i ==> (#[trigger] out@[k]).questions@ =~= seq![
                    self.questions@[k],
                ],
                forall|k: int| 0 <= k < i ==> (#[trigger] out@[k]).records@.len() == 0,
            decreases self.questions@.len() - i,
        {
            let mut questions: Vec<Question> = Vec::new();
            questions.push(self.questions[i].clone());
            out.push(Packet { header, questions, records: Vec::new() });
            i = i + 1;
        }
        out
    }

    /// Reassemble sub-messages into one message: their questions and
    /// records concatenated in order, under the first sub-message's
    /// header with both the question and answer counts set to the
    /// number of sub-messages.
    pub fn merge(packets: Vec<Packet>) -> (r: Packet)
        requires
            1 <= packets@.len() <= 0xFFFF,
        ensures
            merge_post(packets@, r),
    {
        let n = packets.len();
        let mut header = packets[0].header;
        header.question_count = n as u16;
        header.answer_count = n as u16;
        let mut questions: Vec<Question> = Vec::new();
        let mut records: Vec<ResourceRecord> = Vec::new();
        let mut i: usize = 0;
        while i < n
            invariant
                i <= n,
                n == packets@.len(),
                questions@ == concat_questions(packets@.take(i as int)),
                rrs_eq(records@, concat_records(packets@.take(i as int))),
            decreases n - i,
        {
            let mut j: usize = 0;
            let ghost qs0 = questions@;
            while j < packets[i].questions.len()
                invariant
                    i < packets@.len(),
                    j <= packets@[i as int].questions@.len(),
                    questions@ == qs0 + packets@[i as int].questions@.subrange(0, j as int),
                decreases packets@[i as int].questions@.len() - j,
            {
                questions.push(packets[i].questions[j].clone());
                proof {
                    let qsi = packets@[i as int].questions@;
                    assert(qsi.subrange(0, j + 1) =~= qsi.subrange(0, j as int).push(
                        qsi[j as int],
                    ));
                    assert(questions@ =~= qs0 + qsi.subrange(0, j + 1));
                }
                j = j + 1;
            }
            let mut k: usize = 0;
            let ghost rs0 = records@;
            while k < packets[i].records.len()
                invariant
                    i < packets@.len(),
                    k <= packets@[i as int].records@.len(),
                    records@.len() == rs0.len() + k,
                    forall|m: int| 0 <= m < rs0.len() ==> rr_eq(#[trigger] records@[m], rs0[m]),
                    forall|m: int| 0 <= m < k ==> rr_eq(
                        #[trigger] records@[rs0.len() + m],
                        packets@[i as int].records@[m],
                    ),
                decreases packets@[i as int].records@.len() - k,
            {
                records.push(packets[i].records[k].clone());
                k = k + 1;
            }
            proof {
                let taken = packets@.take(i as int);
                let taken1 = packets@.take(i + 1);
                assert(taken1.drop_last() =~= taken);
                assert(taken1.last() == packets@[i as int]);
                assert(questions@ =~= concat_questions(taken) + packets@[i as int].questions@);
                assert(concat_questions(taken1) == concat_questions(taken)
                    + packets@[i as int].questions@);
                let cr0 = concat_records(taken);
                let cr1 = concat_records(taken1);
                assert(cr1 == cr0 + packets@[i as int].records@);
                assert(rrs_eq(rs0, cr0));
                assert forall|m: int| 0 <= m < records@.len() implies rr_eq(
                    #[trigger] records@[m],
                    cr1[m],
                ) by {
                    if m < rs0.len() {
                        assert(rr_eq(records@[m], rs0[m]));
                        assert(rr_eq(rs0[m], cr0[m]));
                        assert(cr1[m] == cr0[m]);
                    } else {
                        let mm = m - rs0.len();
                        assert(rr_eq(records@[rs0.len() + mm], packets@[i as int].records@[mm]));
                        assert(cr1[m] == packets@[i as int].records@[mm]);
                    }
                }
            }
            i = i + 1;
        }
        proof {
            assert(packets@.take(n as int) =~= packets@);
        }
        Packet { header, questions, records }
    }
}

/// The response code a best-effort reply carries when the inbound
/// query could not be decoded.
pub const FORMAT_ERROR: u8 = 1;

/// The response code marking a sub-query whose upstream forward failed.
pub const SERVER_FAILURE: u8 = 2;

/// The views of a question list: each question as (name, type, class).
pub open spec fn question_views(qs: Seq<Question>) -> Seq<(Seq<char>, QType, Class)> {
    qs.map_values(|q: Question| (q.name@, q.qtype, q.class))
}

/// `count` consecutive questions of `data` starting at `pos`, each
/// beginning where the previous one ended, and the offset past the
/// last; the first failure wins.
pub open spec fn parse_questions(data: Seq<u8>, pos: int, count: int) -> Result<
    (Seq<(Seq<char>, QType, Class)>, int),
    DecodeError,
>
    decreases count,
{
    if count <= 0 {
        Ok((Seq::empty(), pos))
    } else {
        match parse_question(data, pos) {
            Err(e) => Err(e),
            Ok(qp) => match parse_questions(data, qp.1, count - 1) {
                Err(e) => Err(e),
                Ok(rest) => Ok((seq![qp.0] + rest.0, rest.1)),
            },
        }
    }
}

/// `count` consecutive resource records of `data` starting at `pos`,
/// and the offset past the last; the first failure wins.
pub open spec fn parse_records(data: Seq<u8>, pos: int, count: int) -> Result<
    (Seq<(Seq<char>, QType, Class, u32, u16, Seq<u8>)>, int),
    DecodeError,
>
    decreases count,
{
    if count <= 0 {
        Ok((Seq::empty(), pos))
    } else {
        match parse_record(data, pos) {
            Err(e) => Err(e),
            Ok(rp) => match parse_records(data, rp.1, count - 1) {
                Err(e) => Err(e),
                Ok(rest) => Ok((seq![rp.0] + rest.0, rest.1)),
            },
        }
    }
}

/// An inbound message: the header, then exactly `question_count`
/// questions, and the offset where the sections after them begin.
pub open spec fn parse_packet(data: Seq<u8>) -> Result<
    (Header, Seq<(Seq<char>, QType, Class)>, int),
    DecodeError,
> {
    if data.len() < 12 {
        Err(DecodeError::TruncatedInput)
    } else {
        let h = spec_header_from_bytes(data);
        match parse_questions(data, 12, h.question_count as int) {
            Err(e) => Err(e),
            Ok(qs) => Ok((h, qs.0, qs.1)),
        }
    }
}

/// A response message: the header, its questions, and then exactly
/// `answer_count` resource records.
pub open spec fn parse_response(data: Seq<u8>) -> Result<
    (Header, Seq<(Seq<char>, QType, Class)>, Seq<(Seq<char>, QType, Class, u32, u16, Seq<u8>)>),
    DecodeError,
> {
    match parse_packet(data) {
        Err(e) => Err(e),
        Ok(hq) => match parse_records(data, hq.2, hq.0.answer_count as int) {
            Err(e) => Err(e),
            Ok(rs) => Ok((hq.0, hq.1, rs.0)),
        },
    }
}

/// The question list holds exactly the parsed names, types and classes.
pub open spec fn questions_match(
    qs: Seq<Question>,
    views: Seq<(Seq<char>, QType, Class)>,
) -> bool {
    &&& qs.len() == views.len()
    &&& forall|i: int| 0 <= i < qs.len() ==> {
        &&& (#[trigger] qs[i]).name@ == views[i].0
        &&& qs[i].qtype == views[i].1
        &&& qs[i].class == views[i].2
    }
}

/// The record list holds exactly the parsed fields.
pub open spec fn records_match(
    rs: Seq<ResourceRecord>,
    views: Seq<(Seq<char>, QType, Class, u32, u16, Seq<u8>)>,
) -> bool {
    &&& rs.len() == views.len()
    &&& forall|i: int| 0 <= i < rs.len() ==> {
        &&& (#[trigger] rs[i]).name@ == views[i].0
        &&& rs[i].qtype == views[i].1
        &&& rs[i].class == views[i].2
        &&& rs[i].ttl == views[i].3
        &&& rs[i].rdlength == views[i].4
        &&& rs[i].rdata@ == views[i].5
    }
}

/// Decode `count` questions from `buf` starting at `start`, exactly as
/// `parse_questions` describes.
fn decode_questions(buf: &[u8], start: usize, count: u16) -> (r: Result<
    (Vec<Question>, usize),
    DecodeError,
>)
    ensures
        match parse_questions(buf@, start as int, count as int) {
            Ok(v) => match r {
                Ok(d) => questions_match(d.0@, v.0) && d.1 as int == v.1,
                Err(_) => false,
            },
            Err(e) => r == Err::<(Vec<Question>, usize), DecodeError>(e),
        },
{
    let mut questions: Vec<Question> = Vec::new();
    let mut idx: usize = start;
    let mut i: u16 = 0;
    while i < count
        invariant
            i <= count,
            questions@.len() == i as int,
            match parse_questions(buf@, idx as int, count - i) {
                Ok(rest) => parse_questions(buf@, start as int, count as int) == Ok::<
                    (Seq<(Seq<char>, QType, Class)>, int),
                    DecodeError,
                >((question_views(questions@) + rest.0, rest.1)),
                Err(e) => parse_questions(buf@, start as int, count as int) == Err::<
                    (Seq<(Seq<char>, QType, Class)>, int),
                    DecodeError,
                >(e),
            },
        decreases count - i,
    {
        let ghost qs0 = questions@;
        let ghost idx0 = idx as int;
        let (q, next) = match Question::from_bytes(buf, idx) {
            Ok(qn) => qn,
            Err(e) => {
                return Err(e);
            },
        };
        questions.push(q);
        idx = next;
        i = i + 1;
        proof {
            let qv = (q.name@, q.qtype, q.class);
            assert(question_views(questions@) =~= question_views(qs0).push(qv));
            let inner = parse_questions(buf@, idx as int, count - i);
            assert(parse_questions(buf@, idx0, count - i + 1) == (match inner {
                Err(e) => Err::<(Seq<(Seq<char>, QType, Class)>, int), DecodeError>(e),
                Ok(rest) => Ok((seq![qv] + rest.0, rest.1)),
            }));
            if inner is Ok {
                let rest = inner->Ok_0;
                assert(question_views(qs0) + (seq![qv] + rest.0) =~= question_views(questions@)
                    + rest.0);
            }
        }
    }
    proof {
        assert(question_views(questions@) + Seq::<(Seq<char>, QType, Class)>::empty()
            =~= question_views(questions@));
    }
    Ok((questions, idx))
}

/// Decode `count` resource records from `buf` starting at `start`,
/// exactly as `parse_records` describes.
fn decode_records(buf: &[u8], start: usize, count: u16) -> (r: Result<
    (Vec<ResourceRecord>, usize),
    DecodeError,
>)
    ensures
        match parse_records(buf@, start as int, count as int) {
            Ok(v) => match r {
                Ok(d) => records_match(d.0@, v.0) && d.1 as int == v.1,
                Err(_) => false,
            },
            Err(e) => r == Err::<(Vec<ResourceRecord>, usize), DecodeError>(e),
        },
{
    let mut records: Vec<ResourceRecord> = Vec::new();
    let mut idx: usize = start;
    let mut i: u16 = 0;
    while i < count
        invariant
            i <= count,
            records@.len() == i as int,
            match parse_records(buf@, idx as int, count - i) {
                Ok(rest) => parse_records(buf@, start as int, count as int) == Ok::<
                    (Seq<(Seq<char>, QType, Class, u32, u16, Seq<u8>)>, int),
                    DecodeError,
                >((record_views(records@) + rest.0, rest.1)),
                Err(e) => parse_records(buf@, start as int, count as int) == Err::<
                    (Seq<(Seq<char>, QType, Class, u32, u16, Seq<u8>)>, int),
                    DecodeError,
                >(e),
            },
        decreases count - i,
    {
        let ghost rs0 = records@;
        let ghost idx0 = idx as int;
        let (rec, next) = match ResourceRecord::from_bytes(buf, idx) {
            Ok(rn) => rn,
            Err(e) => {
                return Err(e);
            },
        };
        let ghost rv = (rec.name@, rec.qtype, rec.class, rec.ttl, rec.rdlength, rec.rdata@);
        records.push(rec);
        idx = next;
        i = i + 1;
        proof {
            assert(record_views(records@) =~= record_views(rs0).push(rv));
            let inner = parse_records(buf@, idx as int, count - i);
            assert(parse_records(buf@, idx0, count - i + 1) == (match inner {
                Err(e) => Err::<(Seq<(Seq<char>, QType, Class, u32, u16, Seq<u8>)>, int), DecodeError>(
                    e,
                ),
                Ok(rest) => Ok((seq![rv] + rest.0, rest.1)),
            }));
            if inner is Ok {
                let rest = inner->Ok_0;
                assert(record_views(rs0) + (seq![rv] + rest.0) =~= record_views(records@)
                    + rest.0);
            }
        }
    }
    proof {
        assert(record_views(records@) + Seq::<(Seq<char>, QType, Class, u32, u16, Seq<u8>)>::empty()
            =~= record_views(records@));
    }
    Ok((records, idx))
}

/// The views of a record list, in the order of `parse_records`.
pub open spec fn record_views(rs: Seq<ResourceRecord>) -> Seq<
    (Seq<char>, QType, Class, u32, u16, Seq<u8>),
> {
    rs.map_values(|r: ResourceRecord| (r.name@, r.qtype, r.class, r.ttl, r.rdlength, r.rdata@))
}

/// The wire forms of a question list, concatenated in order.
pub open spec fn questions_wire(qs: Seq<Question>) -> Seq<u8>
    decreases qs.len(),
{
    if qs.len() == 0 {
        Seq::empty()
    } else {
        questions_wire(qs.drop_last()) + qs.last().wire()
    }
}

/// The wire forms of a record list, concatenated in order.
pub open spec fn records_wire(rs: Seq<ResourceRecord>) -> Seq<u8>
    decreases rs.len(),
{
    if rs.len() == 0 {
        Seq::empty()
    } else {
        records_wire(rs.drop_last()) + rs.last().wire()
    }
}

/// The wire form of a whole message: header, then every question, then
/// every record, concatenated.
pub open spec fn packet_wire(p: Packet) -> Seq<u8> {
    spec_header_to_bytes(p.header) + questions_wire(p.questions@) + records_wire(p.records@)
}

/// The header of the best-effort reply to an undecodable query: the
/// inbound id, opcode and recursion flag where the buffer holds at
/// least a header, all counts zeroed, and `FORMAT_ERROR` as the
/// response code.
pub open spec fn format_error_header(data: Seq<u8>) -> Header {
    if data.len() < 12 {
        Header { query_response: true, response_code: FORMAT_ERROR, ..Header::zeroed() }
    } else {
        let h = spec_header_from_bytes(data);
        Header {
            id: h.id,
            query_response: true,
            opcode: h.opcode,
            recursion_desired: h.recursion_desired,
            response_code: FORMAT_ERROR,
            ..Header::zeroed()
        }
    }
}

impl Packet {
    /// Every question and record is encodable and the header's counts
    /// agree with the section lengths, as they must whenever a message
    /// crosses an encode boundary.
    pub open spec fn wf(self) -> bool {
        &&& forall|i: int| 0 <= i < self.questions@.len() ==> (#[trigger] self.questions@[i]).wf()
        &&& forall|i: int| 0 <= i < self.records@.len() ==> (#[trigger] self.records@[i]).wf()
        &&& self.header.question_count == self.questions@.len()
        &&& self.header.answer_count == self.records@.len()
    }

    /// Decode an inbound query: the header, then exactly
    /// `question_count` questions; the record sections are left empty.
    pub fn from_bytes(buf: &[u8]) -> (r: Result<Packet, DecodeError>)
        ensures
            match parse_packet(buf@) {
                Ok(v) => match r {
                    Ok(p) => {
                        &&& p.header == v.0
                        &&& questions_match(p.questions@, v.1)
                        &&& p.records@.len() == 0
                    },
                    Err(_) => false,
                },
                Err(e) => r == Err::<Packet, DecodeError>(e),
            },
    {
        let header = match Header::from_bytes(buf) {
            Ok(h) => h,
            Err(e) => {
                return Err(e);
            },
        };
        let (questions, _) = match decode_questions(buf, 12, header.question_count) {
            Ok(qn) => qn,
            Err(e) => {
                return Err(e);
            },
        };
        Ok(Packet { header, questions, records: Vec::new() })
    }

    /// Decode a response message: the header, its questions, and then
    /// exactly `answer_count` resource records.
    pub fn decode_response(buf: &[u8]) -> (r: Result<Packet, DecodeError>)
        ensures
            match parse_response(buf@) {
                Ok(v) => match r {
                    Ok(p) => {
                        &&& p.header == v.0
                        &&& questions_match(p.questions@, v.1)
                        &&& records_match(p.records@, v.2)
                    },
                    Err(_) => false,
                },
                Err(e) => r == Err::<Packet, DecodeError>(e),
            },
    {
        let header = match Header::from_bytes(buf) {
            Ok(h) => h,
            Err(e) => {
                return Err(e);
            },
        };
        let (questions, qend) = match decode_questions(buf, 12, header.question_count) {
            Ok(qn) => qn,
            Err(e) => {
                return Err(e);
            },
        };
        let (records, _) = match decode_records(buf, qend, header.answer_count) {
            Ok(rn) => rn,
            Err(e) => {
                return Err(e);
            },
        };
        Ok(Packet { header, questions, records })
    }

    /// Encode this message: the header bytes, then every question, then
    /// every record, concatenated exactly as `packet_wire` describes.
    pub fn to_bytes(&self) -> (r: Vec<u8>)
        requires
            self.wf(),
        ensures
            r@ == packet_wire(*self),
    {
        let hb = self.header.to_bytes();
        let mut out: Vec<u8> = Vec::new();
        let mut h: usize = 0;
        while h < 12
            invariant
                h <= 12,
                hb@ == spec_header_to_bytes(self.header),
                out@ == hb@.subrange(0, h as int),
            decreases 12 - h,
        {
            out.push(hb[h]);
            proof {
                assert(hb@.subrange(0, h + 1) =~= hb@.subrange(0, h as int).push(hb@[h as int]));
            }
            h = h + 1;
        }
        proof {
            assert(hb@.subrange(0, 12) =~= hb@);
        }
        let mut i: usize = 0;
        while i < self.questions.len()
            invariant
                i <= self.questions@.len(),
                self.wf(),
                out@ == spec_header_to_bytes(self.header) + questions_wire(
                    self.questions@.take(i as int),
                ),
            decreases self.questions@.len() - i,
        {
            let mut qb = self.questions[i].to_bytes();
            out.append(&mut qb);
            proof {
                let taken = self.questions@.take(i as int);
                let taken1 = self.questions@.take(i + 1);
                assert(taken1.drop_last() =~= taken);
                assert(taken1.last() == self.questions@[i as int]);
                assert(out@ =~= spec_header_to_bytes(self.header) + questions_wire(taken1));
            }
            i = i + 1;
        }
        proof {
            assert(self.questions@.take(self.questions@.len() as int) =~= self.questions@);
        }
        let mut k: usize = 0;
        while k < self.records.len()
            invariant
                k <= self.records@.len(),
                self.wf(),
                out@ == spec_header_to_bytes(self.header) + questions_wire(self.questions@)
                    + records_wire(self.records@.take(k as int)),
            decreases self.records@.len() - k,
        {
            let mut rb = self.records[k].to_bytes();
            out.append(&mut rb);
            proof {
                let taken = self.records@.take(k as int);
                let taken1 = self.records@.take(k + 1);
                assert(taken1.drop_last() =~= taken);
                assert(taken1.last() == self.records@[k as int]);
                assert(out@ =~= spec_header_to_bytes(self.header) + questions_wire(
                    self.questions@,
                ) + records_wire(taken1));
            }
            k = k + 1;
        }
        proof {
            assert(self.records@.take(self.records@.len() as int) =~= self.records@);
            assert(out@ =~= packet_wire(*self));
        }
        out
    }

    /// The sub-response standing in for a sub-query whose upstream
    /// forward failed: the sub-query's questions under its header
    /// marked as a response with `SERVER_FAILURE`, and no records, so a
    /// partial failure still yields a reply for the questions that did
    /// resolve.
    pub fn server_failure(sub: &Packet) -> (r: Packet)
        ensures
            r.header == (Header {
                query_response: true,
                response_code: SERVER_FAILURE,
                answer_count: 0,
                ..sub.header
            }),
            r.questions@ == sub.questions@,
            r.records@.len() == 0,
    {
        let mut header = sub.header;
        header.query_response = true;
        header.response_code = SERVER_FAILURE;
        header.answer_count = 0;
        Packet { header, questions: clone_questions(&sub.questions), records: Vec::new() }
    }

    /// The best-effort reply to a query that could not be decoded: a
    /// bare header echoing the inbound id, opcode and recursion flag
    /// where present, with `FORMAT_ERROR` as the response code and all
    /// counts zeroed, so a malformed datagram is answered rather than
    /// dropped.
    pub fn format_error_response(buf: &[u8]) -> (r: Vec<u8>)
        ensures
            r@ == spec_header_to_bytes(format_error_header(buf@)),
    {
        let mut header = Header::default();
        header.query_response = true;
        header.response_code = FORMAT_ERROR;
        match Header::from_bytes(buf) {
            Ok(h) => {
                header.id = h.id;
                header.opcode = h.opcode;
                header.recursion_desired = h.recursion_desired;
            },
            Err(_) => {},
        }
        let hb = header.to_bytes();
        let mut out: Vec<u8> = Vec::new();
        let mut h: usize = 0;
        while h < 12
            invariant
                h <= 12,
                hb@ == spec_header_to_bytes(format_error_header(buf@)),
                out@ == hb@.subrange(0, h as int),
            decreases 12 - h,
        {
            out.push(hb[h]);
            proof {
                assert(hb@.subrange(0, h + 1) =~= hb@.subrange(0, h as int).push(hb@[h as int]));
            }
            h = h + 1;
        }
        proof {
            assert(hb@.subrange(0, 12) =~= hb@);
        }
        out
    }
}

/// Splitting a message and merging the sub-messages straight back
/// reproduces the original question list, in its original order, with
/// the merged counts equal to the number of questions.
pub proof fn lemma_split_merge_round_trip(p: Packet, subs: Seq<Packet>, merged: Packet)
    requires
        1 <= p.questions@.len() <= 0xFFFF,
        split_post(p, subs),
        merge_post(subs, merged),
    ensures
        merged.questions@ == p.questions@,
        merged.records@.len() == 0,
        merged.header.id == p.header.id,
        merged.header.question_count == p.questions@.len() as u16,
        merged.header.answer_count == p.questions@.len() as u16,
{
    lemma_concat_of_singletons(subs, p.questions@);
    lemma_concat_of_no_records(subs);
}

/// Concatenating the question lists of packets that each hold exactly
/// one question, the i-th packet holding the i-th of `qs`, gives `qs`.
proof fn lemma_concat_of_singletons(subs: Seq<Packet>, qs: Seq<Question>)
    requires
        subs.len() == qs.len(),
        forall|i: int| 0 <= i < subs.len() ==> (#[trigger] subs[i]).questions@ =~= seq![qs[i]],
    ensures
        concat_questions(subs) == qs,
    decreases subs.len(),
{
    if subs.len() == 0 {
        assert(concat_questions(subs) =~= qs);
    } else {
        lemma_concat_of_singletons(subs.drop_last(), qs.drop_last());
        assert(subs.last().questions@ =~= seq![qs[subs.len() - 1]]);
        assert(concat_questions(subs) =~= qs);
    }
}

/// Concatenating the record lists of packets that each hold none gives
/// the empty list.
proof fn lemma_concat_of_no_records(subs: Seq<Packet>)
    requires
        forall|i: int| 0 <= i < subs.len() ==> (#[trigger] subs[i]).records@.len() == 0,
    ensures
        concat_records(subs).len() == 0,
    decreases subs.len(),
{
    if subs.len() > 0 {
        lemma_concat_of_no_records(subs.drop_last());
    }
}

} // verus!
