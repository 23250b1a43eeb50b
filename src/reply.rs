//! The store's replies, and the reconstruction of a job from the reply of the
//! script that moves the next job to active.
use vstd::prelude::*;
use vstd::string::StringExecFns;
use vstd::utf8::{valid_utf8, decode_utf8};
use crate::job::{Job, JobBuilder, JobOptions, options_from_json, parse_job_options};

verus! {

/// `core::str::Utf8Error`, held opaque: why bytes are not UTF-8.
#[verifier::external_type_specification]
#[verifier::external_body]
pub struct ExUtf8Error(core::str::Utf8Error);

/// Relies on `core::str::from_utf8`: it accepts exactly the valid UTF-8
/// byte sequences and decodes them.
pub assume_specification[ core::str::from_utf8 ](v: &[u8]) -> (r: Result<&str, core::str::Utf8Error>)
    ensures
        r is Ok <==> valid_utf8(v@),
        r matches Ok(s) ==> s@ == decode_utf8(v@),
;

/// A reply of the store.
#[derive(Debug)]
pub enum Reply {
    Nil,
    Int(i64),
    Data(Vec<u8>),
    Bulk(Vec<Reply>),
    Status(String),
    Okay,
}

/// Why a reply could not be read.
#[derive(Debug, Clone, Copy, PartialEq, Eq, Structural)]
pub enum ReplyError {
    /// The reply does not have the shape that the script returns.
    InvalidResponse,
    /// A field of the job is missing or cannot be read.
    InvalidField,
}

/// What the script that moves the next job to active gives: the job, or
/// nothing when no job is eligible.
#[derive(Debug)]
pub enum MoveToActiveReturn<JobData> {
    Job(Job<JobData>),
    NoJob,
}

pub open spec fn is_digit(b: u8) -> bool {
    48 <= b <= 57
}

pub open spec fn all_digits(s: Seq<u8>) -> bool {
    forall|i: int| 0 <= i < s.len() ==> is_digit(#[trigger] s[i])
}

/// The value of a sequence of decimal digits.
pub open spec fn digits_value(s: Seq<u8>) -> nat
    decreases s.len(),
{
    if s.len() == 0 {
        0
    } else {
        digits_value(s.drop_last()) * 10 + (s.last() - 48) as nat
    }
}

/// The number that `s` writes in decimal, if it is one that fits under
/// `max`: one or more digits and nothing else.
pub open spec fn decimal_up_to(s: Seq<u8>, max: nat) -> Option<nat> {
    if s.len() > 0 && all_digits(s) && digits_value(s) <= max {
        Some(digits_value(s))
    } else {
        None
    }
}

proof fn lemma_digits_prefix(s: Seq<u8>, j: int)
    requires
        0 <= j <= s.len(),
        all_digits(s),
    ensures
        digits_value(s.take(j)) <= digits_value(s),
    decreases s.len(),
{
    if j < s.len() {
        assert(all_digits(s.drop_last())) by {
            assert forall|i: int| 0 <= i < s.drop_last().len() implies is_digit(
                #[trigger] s.drop_last()[i],
            ) by {
                assert(s.drop_last()[i] == s[i]);
            }
        }
        lemma_digits_prefix(s.drop_last(), j);
        assert(s.drop_last().take(j) =~= s.take(j));
    } else {
        assert(s.take(j) =~= s);
    }
}

/// Reads the decimal number that `s` writes, if it fits in 128 bits.
pub fn parse_u128(s: &Vec<u8>) -> (r: Option<u128>)
    ensures
        match decimal_up_to(s@, u128::MAX as nat) {
            Some(v) => r == Some(v as u128),
            None => r is None,
        },
{
    if s.len() == 0 {
        return None;
    }
    let mut v: u128 = 0;
    let mut i: usize = 0;
    while i < s.len()
        invariant
            0 < s@.len(),
            i <= s@.len(),
            all_digits(s@.take(i as int)),
            v == digits_value(s@.take(i as int)),
        decreases s@.len() - i,
    {
        let b = s[i];
        if b < 48 || b > 57 {
            assert(!all_digits(s@));
            return None;
        }
        assert(s@.take(i + 1).drop_last() =~= s@.take(i as int));
        assert(all_digits(s@.take(i + 1))) by {
            assert forall|k: int| 0 <= k < i + 1 implies is_digit(#[trigger] s@.take(i + 1)[k]) by {
                if k < i {
                    assert(s@.take(i + 1)[k] == s@.take(i as int)[k]);
                }
            }
        }
        let d = (b - 48) as u128;
        match v.checked_mul(10) {
            Some(t) => match t.checked_add(d) {
                Some(n) => {
                    v = n;
                },
                None => {
                    proof {
                        if all_digits(s@) {
                            lemma_digits_prefix(s@, i + 1);
                        }
                    }
                    return None;
                },
            },
            None => {
                proof {
                    if all_digits(s@) {
                        lemma_digits_prefix(s@, i + 1);
                    }
                }
                return None;
            },
        }
        i = i + 1;
    }
    assert(s@.take(i as int) =~= s@);
    Some(v)
}

/// Reads the decimal number that `s` writes, if it fits in 32 bits.
pub fn parse_u32(s: &Vec<u8>) -> (r: Option<u32>)
    ensures
        match decimal_up_to(s@, u32::MAX as nat) {
            Some(v) => r == Some(v as u32),
            None => r is None,
        },
{
    match parse_u128(s) {
        Some(v) => if v <= u32::MAX as u128 {
            Some(v as u32)
        } else {
            None
        },
        None => None,
    }
}

/// The text that UTF-8 bytes encode.
pub open spec fn utf8_text(b: Seq<u8>) -> Option<Seq<char>> {
    if valid_utf8(b) {
        Some(decode_utf8(b))
    } else {
        None
    }
}

/// Decodes UTF-8 bytes.
pub fn text_of_bytes(b: &Vec<u8>) -> (r: Option<String>)
    ensures
        match utf8_text(b@) {
            Some(t) => r matches Some(s) && s@ == t,
            None => r is None,
        },
{
    match core::str::from_utf8(b.as_slice()) {
        Ok(s) => Some(String::from_str(s)),
        Err(_) => None,
    }
}

/// The fields of a job read so far from a reply.
pub struct Fields {
    pub name: Option<Seq<char>>,
    pub data: Option<Seq<u8>>,
    pub opts: Option<JobOptions>,
    pub timestamp: Option<u128>,
    pub delay: Option<u128>,
    pub priority: Option<u32>,
    pub processed_on: Option<u128>,
    pub attempts_started: Option<u32>,
    pub attempts_made: Option<u32>,
}

pub open spec fn no_fields() -> Fields {
    Fields {
        name: None,
        data: None,
        opts: None,
        timestamp: None,
        delay: None,
        priority: None,
        processed_on: None,
        attempts_started: None,
        attempts_made: None,
    }
}

pub open spec fn dec_u128(v: Seq<u8>) -> Option<u128> {
    match decimal_up_to(v, u128::MAX as nat) {
        Some(n) => Some(n as u128),
        None => None,
    }
}

pub open spec fn dec_u32(v: Seq<u8>) -> Option<u32> {
    match decimal_up_to(v, u32::MAX as nat) {
        Some(n) => Some(n as u32),
        None => None,
    }
}

/// The fields after reading `value` under `key`; `None` where the value of a
/// known field cannot be read. Unknown keys leave the fields as they were.
pub open spec fn apply_field(f: Fields, key: Seq<char>, value: Seq<u8>) -> Option<Fields> {
    if key == "name"@ {
        match utf8_text(value) {
            Some(t) => Some(Fields { name: Some(t), ..f }),
            None => None,
        }
    } else if key == "data"@ {
        Some(Fields { data: Some(value), ..f })
    } else if key == "opts"@ {
        match utf8_text(value) {
            Some(t) => match options_from_json(t) {
                Some(o) => Some(Fields { opts: Some(o), ..f }),
                None => None,
            },
            None => None,
        }
    } else if key == "timestamp"@ {
        match dec_u128(value) {
            Some(n) => Some(Fields { timestamp: Some(n), ..f }),
            None => None,
        }
    } else if key == "delay"@ {
        match dec_u128(value) {
            Some(n) => Some(Fields { delay: Some(n), ..f }),
            None => None,
        }
    } else if key == "priority"@ {
        match dec_u32(value) {
            Some(n) => Some(Fields { priority: Some(n), ..f }),
            None => None,
        }
    } else if key == "processedOn"@ {
        match dec_u128(value) {
            Some(n) => Some(Fields { processed_on: Some(n), ..f }),
            None => None,
        }
    } else if key == "ats"@ {
        match dec_u32(value) {
            Some(n) => Some(Fields { attempts_started: Some(n), ..f }),
            None => None,
        }
    } else if key == "atm"@ {
        match dec_u32(value) {
            Some(n) => Some(Fields { attempts_made: Some(n), ..f }),
            None => None,
        }
    } else {
        Some(f)
    }
}

/// The fields read from the key/value list `items`, from index `i` on, two
/// items at a time. A pair that is not two byte strings, or whose key is not
/// UTF-8, is skipped, as is a last item without a partner.
pub open spec fn fold_fields(items: Seq<Reply>, i: int, f: Fields) -> Option<Fields>
    decreases items.len() - i,
{
    if i < 0 || i + 1 >= items.len() {
        Some(f)
    } else {
        match (items[i], items[i + 1]) {
            (Reply::Data(k), Reply::Data(v)) => match utf8_text(k@) {
                Some(key) => match apply_field(f, key, v@) {
                    Some(g) => fold_fields(items, i + 2, g),
                    None => None,
                },
                None => fold_fields(items, i + 2, f),
            },
            _ => fold_fields(items, i + 2, f),
        }
    }
}

pub open spec fn fields_complete(f: Fields) -> bool {
    &&& f.name is Some
    &&& f.data is Some
    &&& f.opts is Some
    &&& f.timestamp is Some
    &&& f.delay is Some
    &&& f.priority is Some
    &&& f.processed_on is Some
    &&& f.attempts_started is Some
}

/// The fields that a builder holds, the job id aside.
pub open spec fn fields_of(b: JobBuilder<Vec<u8>>) -> Fields {
    Fields {
        name: match b.name {
            Some(s) => Some(s@),
            None => None,
        },
        data: match b.data {
            Some(d) => Some(d@),
            None => None,
        },
        opts: b.opts,
        timestamp: b.timestamp,
        delay: b.delay,
        priority: b.priority,
        processed_on: b.processed_on,
        attempts_started: b.attempts_started,
        attempts_made: b.attempts_made,
    }
}

/// Whether `j` is the job with id `id` and the fields `f`.
pub open spec fn job_is(j: Job<Vec<u8>>, id: Seq<char>, f: Fields) -> bool {
    &&& j.id@ == id
    &&& j.name@ == f.name->0
    &&& j.data@ == f.data->0
    &&& j.opts == f.opts->0
    &&& j.timestamp == f.timestamp->0
    &&& j.delay == f.delay->0
    &&& j.priority == f.priority->0
    &&& j.processed_on == f.processed_on->0
    &&& j.attempts_started == f.attempts_started->0
    &&& j.attempts_made == f.attempts_made
}

pub open spec fn is_zero(r: Reply) -> bool {
    r matches Reply::Int(n) && n == 0
}

/// The reply that says that no job is eligible: four zeros.
pub open spec fn is_no_job_reply(r: Reply) -> bool {
    match r {
        Reply::Bulk(items) => items@.len() == 4 && is_zero(items@[0]) && is_zero(items@[1])
            && is_zero(items@[2]) && is_zero(items@[3]),
        _ => false,
    }
}

/// The parts of a reply that carries a job: its field list and its id.
pub open spec fn job_reply_parts(r: Reply) -> Option<(Seq<Reply>, Seq<u8>)> {
    match r {
        Reply::Bulk(items) => if items@.len() == 4 && !is_no_job_reply(r) {
            match (items@[0], items@[1], items@[2], items@[3]) {
                (Reply::Bulk(raw), Reply::Data(id), Reply::Int(_), Reply::Int(_)) => Some(
                    (raw@, id@),
                ),
                _ => None,
            }
        } else {
            None
        },
        _ => None,
    }
}

fn is_zero_exec(r: &Reply) -> (b: bool)
    ensures
        b == is_zero(*r),
{
    match r {
        Reply::Int(n) => *n == 0,
        _ => false,
    }
}

fn text_eq(a: &String, b: &str) -> (r: bool)
    ensures
        r == (a@ == b@),
{
    *a == String::from_str(b)
}

/// Reads the value of one field into the builder; `None` where a known
/// field's value cannot be read.
fn read_field(b: JobBuilder<Vec<u8>>, key: &String, value: &Vec<u8>) -> (r: Option<
    JobBuilder<Vec<u8>>,
>)
    ensures
        match apply_field(fields_of(b), key@, value@) {
            Some(g) => r matches Some(nb) && fields_of(nb) == g && nb.id == b.id,
            None => r is None,
        },
{
    if text_eq(key, "name") {
        match text_of_bytes(value) {
            Some(t) => Some(b.name(t)),
            None => None,
        }
    } else if text_eq(key, "data") {
        let mut d: Vec<u8> = Vec::new();
        let mut i: usize = 0;
        while i < value.len()
            invariant
                i <= value@.len(),
                d@ == value@.take(i as int),
            decreases value@.len() - i,
        {
            d.push(value[i]);
            i = i + 1;
            assert(d@ =~= value@.take(i as int));
        }
        assert(d@ =~= value@);
        Some(b.data(d))
    } else if text_eq(key, "opts") {
        match text_of_bytes(value) {
            Some(t) => match parse_job_options(t.as_str()) {
                Some(o) => Some(JobBuilder { opts: Some(o), ..b }),
                None => None,
            },
            None => None,
        }
    } else if text_eq(key, "timestamp") {
        match parse_u128(value) {
            Some(n) => Some(b.timestamp(n)),
            None => None,
        }
    } else if text_eq(key, "delay") {
        match parse_u128(value) {
            Some(n) => Some(b.delay(n)),
            None => None,
        }
    } else if text_eq(key, "priority") {
        match parse_u32(value) {
            Some(n) => Some(b.priority(n)),
            None => None,
        }
    } else if text_eq(key, "processedOn") {
        match parse_u128(value) {
            Some(n) => Some(b.processed_on(n)),
            None => None,
        }
    } else if text_eq(key, "ats") {
        match parse_u32(value) {
            Some(n) => Some(b.attempts_started(n)),
            None => None,
        }
    } else if text_eq(key, "atm") {
        match parse_u32(value) {
            Some(n) => Some(b.attempts_made(n)),
            None => None,
        }
    } else {
        Some(b)
    }
}

/// Rebuilds the job that the script moving the next job to active returned.
///
/// Four zeros mean that no job is eligible. A job comes as its field list,
/// its id and two integers; the field list alternates names and values, and
/// numbers are written in decimal. Unknown fields are ignored.
pub fn parse_move_to_active_reply(reply: &Reply) -> (r: Result<
    MoveToActiveReturn<Vec<u8>>,
    ReplyError,
>)
    ensures
        is_no_job_reply(*reply) ==> (r matches Ok(MoveToActiveReturn::NoJob)),
        job_reply_parts(*reply) matches Some((raw, id)) ==> match (
            utf8_text(id),
            fold_fields(raw, 0, no_fields()),
        ) {
            (Some(idt), Some(f)) => if fields_complete(f) {
                r matches Ok(MoveToActiveReturn::Job(j)) && job_is(j, idt, f)
            } else {
                r == Err::<MoveToActiveReturn<Vec<u8>>, ReplyError>(ReplyError::InvalidField)
            },
            _ => r == Err::<MoveToActiveReturn<Vec<u8>>, ReplyError>(ReplyError::InvalidField),
        },
        !is_no_job_reply(*reply) && job_reply_parts(*reply) is None ==> r == Err::<
            MoveToActiveReturn<Vec<u8>>,
            ReplyError,
        >(ReplyError::InvalidResponse),
{
    let items = match reply {
        Reply::Bulk(items) => items,
        _ => {
            return Err(ReplyError::InvalidResponse);
        },
    };
    if items.len() != 4 {
        return Err(ReplyError::InvalidResponse);
    }
    if is_zero_exec(&items[0]) && is_zero_exec(&items[1]) && is_zero_exec(&items[2])
        && is_zero_exec(&items[3]) {
        return Ok(MoveToActiveReturn::NoJob);
    }
    let raw = match &items[0] {
        Reply::Bulk(raw) => raw,
        _ => {
            return Err(ReplyError::InvalidResponse);
        },
    };
    let id_bytes = match &items[1] {
        Reply::Data(id) => id,
        _ => {
            return Err(ReplyError::InvalidResponse);
        },
    };
    match (&items[2], &items[3]) {
        (Reply::Int(_), Reply::Int(_)) => {},
        _ => {
            return Err(ReplyError::InvalidResponse);
        },
    }
    let id = match text_of_bytes(id_bytes) {
        Some(id) => id,
        None => {
            return Err(ReplyError::InvalidField);
        },
    };
    let mut b: JobBuilder<Vec<u8>> = JobBuilder::new();
    b = b.id(id);
    let ghost idt = b.id->0@;
    assert(fields_of(b) == no_fields());
    let mut i: usize = 0;
    assert(job_reply_parts(*reply) == Some((raw@, id_bytes@)));
    while i < raw.len() && raw.len() - i > 1
        invariant
            i <= raw@.len(),
            job_reply_parts(*reply) == Some((raw@, id_bytes@)),
            b.id matches Some(s) && s@ == idt,
            fold_fields(raw@, 0, no_fields()) == fold_fields(raw@, i as int, fields_of(b)),
        decreases raw@.len() - i,
    {
        match (&raw[i], &raw[i + 1]) {
            (Reply::Data(k), Reply::Data(v)) => match text_of_bytes(k) {
                Some(key) => match read_field(b, &key, v) {
                    Some(nb) => {
                        b = nb;
                    },
                    None => {
                        assert(fold_fields(raw@, i as int, fields_of(b)) is None);
                        return Err(ReplyError::InvalidField);
                    },
                },
                None => {},
            },
            _ => {},
        }
        i = i + 2;
    }
    if !b.is_complete() {
        return Err(ReplyError::InvalidField);
    }
    let j = b.build();
    Ok(MoveToActiveReturn::Job(j))
}

} // verus!
