//! Values of the database and their JSON form.

use vstd::prelude::*;
use vstd::slice::slice_subrange;
use crate::config::invalid_with;
use crate::config::json::{Json, JsonModel};
use crate::error;
use crate::error::{ErrorModel, StorageError};
use crate::text;

verus! {

/// A value of the database. A real number is kept as its decimal text;
/// there is none for infinities and for what is no number.
pub enum SqlValue {
    Null,
    Integer(i64),
    Real(Option<String>),
    Text(String),
    Blob(Vec<u8>),
}

/// The mathematical form of a database value.
pub enum SqlModel {
    Null,
    Integer(i64),
    Real(Option<Seq<char>>),
    Text(Seq<char>),
    Blob(Seq<u8>),
}

impl DeepView for SqlValue {
    type V = SqlModel;

    open spec fn deep_view(&self) -> SqlModel {
        match self {
            SqlValue::Null => SqlModel::Null,
            SqlValue::Integer(n) => SqlModel::Integer(*n),
            SqlValue::Real(t) => SqlModel::Real(t.deep_view()),
            SqlValue::Text(s) => SqlModel::Text(s@),
            SqlValue::Blob(b) => SqlModel::Blob(b@),
        }
    }
}

/// Whether the base64 form of a blob is addressable. Databases keep blobs
/// far below this size.
pub open spec fn encodable(v: SqlModel) -> bool {
    match v {
        SqlModel::Blob(b) => b.len() <= usize::MAX / 4,
        _ => true,
    }
}

/// What the standard base64 alphabet makes of bytes.
pub uninterp spec fn base64_text(bytes: Seq<u8>) -> Seq<char>;

/// What decoding a base64 text gives: bytes, or the message of the error.
pub uninterp spec fn base64_bytes(s: Seq<char>) -> Result<Seq<u8>, Seq<char>>;

/// `base64::Engine::encode` with the standard alphabet and padding. The
/// result depends on the bytes alone, decodes to them again, and holds no
/// colon; its other characters are not stated.
#[verifier::external_body]
pub(crate) fn encode_base64(bytes: &Vec<u8>) -> (out: String)
    requires
        bytes@.len() <= usize::MAX / 4,
    ensures
        out@ == base64_text(bytes@),
        base64_bytes(out@) is Ok && base64_bytes(out@)->Ok_0 == bytes@,
        !out@.contains(':'),
{
    base64::Engine::encode(&base64::engine::general_purpose::STANDARD, bytes)
}

/// `base64::Engine::decode` with the standard alphabet and padding. The
/// result depends on the text alone; which bytes a text gives is not stated
/// beyond what `encode_base64` says.
#[verifier::external_body]
pub(crate) fn decode_base64(s: &str) -> (r: Result<Vec<u8>, String>)
    ensures
        r is Ok == base64_bytes(s@) is Ok,
        r is Ok ==> r->Ok_0@ == base64_bytes(s@)->Ok_0,
        r is Err ==> r->Err_0@ == base64_bytes(s@)->Err_0,
{
    base64::Engine::decode(&base64::engine::general_purpose::STANDARD, s).map_err(|e| e.to_string())
}

/// Whether the base64 text of bytes decodes to them and holds no colon.
pub open spec fn reads_back(b: Seq<u8>) -> bool {
    base64_bytes(base64_text(b)) is Ok && base64_bytes(base64_text(b))->Ok_0 == b && !base64_text(
        b,
    ).contains(':')
}

/// The JSON form of a database value. A blob is written in base64 behind a
/// prefix.
pub open spec fn json_form(v: SqlModel) -> JsonModel {
    match v {
        SqlModel::Null => JsonModel::Null,
        SqlModel::Integer(n) => JsonModel::Int(n),
        SqlModel::Real(Some(t)) => JsonModel::Float(t),
        SqlModel::Real(None) => JsonModel::Null,
        SqlModel::Text(s) => JsonModel::Str(s),
        SqlModel::Blob(b) => JsonModel::Str("base64:"@ + base64_text(b)),
    }
}

/// Turns a database value into JSON.
pub fn sql_value_to_json(value: &SqlValue) -> (r: Json)
    requires
        encodable(value.deep_view()),
    ensures
        r.model() == json_form(value.deep_view()),
        value.deep_view() matches SqlModel::Blob(b) ==> reads_back(b),
{
    match value {
        SqlValue::Null => Json::Null,
        SqlValue::Integer(n) => Json::Int(*n),
        SqlValue::Real(Some(t)) => Json::Float(t.clone()),
        SqlValue::Real(None) => Json::Null,
        SqlValue::Text(s) => Json::Str(s.clone()),
        SqlValue::Blob(b) => {
            let mut s = "base64:".to_string();
            s.append(encode_base64(b).as_str());
            Json::Str(s)
        },
    }
}

/// A text without the prefix, however often it is repeated.
pub open spec fn without_prefixes(s: Seq<char>, prefix: Seq<char>) -> Seq<char>
    decreases s.len(),
{
    if prefix.len() > 0 && text::begins(s, prefix) {
        without_prefixes(s.skip(prefix.len() as int), prefix)
    } else {
        s
    }
}

/// The database value of a JSON value; lists and objects have none.
pub open spec fn sql_form(v: JsonModel) -> Result<SqlModel, ErrorModel> {
    match v {
        JsonModel::Null => Ok(SqlModel::Null),
        JsonModel::Bool(b) => Ok(
            SqlModel::Integer(
                if b {
                    1
                } else {
                    0
                },
            ),
        ),
        JsonModel::Int(n) => Ok(SqlModel::Integer(n)),
        JsonModel::UInt(n) => if n <= i64::MAX {
            Ok(SqlModel::Integer(n as i64))
        } else {
            Ok(SqlModel::Real(Some(text::decimal(n as nat))))
        },
        JsonModel::Float(t) => Ok(SqlModel::Real(Some(t))),
        JsonModel::Str(s) => if text::begins(s, "base64:"@) {
            match base64_bytes(without_prefixes(s, "base64:"@)) {
                Ok(b) => Ok(SqlModel::Blob(b)),
                Err(m) => Err(error::invalid("Invalid configuration blob: "@ + m)),
            }
        } else {
            Ok(SqlModel::Text(s))
        },
        _ => Err(error::invalid("Configuration import values must be scalar"@)),
    }
}

/// Drops a prefix, however often it is repeated.
fn strip_prefixes<'a>(s: &'a [char], prefix: &str) -> (out: &'a [char])
    requires
        prefix@.len() > 0,
    ensures
        out@ == without_prefixes(s@, prefix@),
{
    let p = text::chars_of(prefix);
    let mut rest: &[char] = s;
    while text::starts_with(rest, prefix)
        invariant
            p@ == prefix@,
            prefix@.len() > 0,
            without_prefixes(s@, prefix@) == without_prefixes(rest@, prefix@),
        decreases rest@.len(),
    {
        let next = slice_subrange(rest, p.len(), rest.len());
        proof {
            assert(next@ =~= rest@.skip(prefix@.len() as int));
        }
        rest = next;
    }
    rest
}

/// The bytes behind a text, once they are decoded.
pub fn decoded_blob(decoded: Result<Vec<u8>, String>) -> (r: Result<SqlValue, StorageError>)
    ensures
        match decoded {
            Ok(b) => r is Ok && r->Ok_0.deep_view() == SqlModel::Blob(b@),
            Err(m) => r is Err && r->Err_0.deep_view() == error::invalid(
                "Invalid configuration blob: "@ + m@,
            ),
        },
{
    match decoded {
        Ok(b) => Ok(SqlValue::Blob(b)),
        Err(m) => Err(invalid_with("Invalid configuration blob: ", m.as_str())),
    }
}

/// Turns a JSON value into a database value.
pub fn json_to_sql_value(value: &Json) -> (r: Result<SqlValue, StorageError>)
    ensures
        error::result_view(r) == sql_form(value.model()),
{
    match value {
        Json::Null => Ok(SqlValue::Null),
        Json::Bool(b) => Ok(
            SqlValue::Integer(
                if *b {
                    1
                } else {
                    0
                },
            ),
        ),
        Json::Int(n) => Ok(SqlValue::Integer(*n)),
        Json::UInt(n) => {
            if *n <= 9223372036854775807 {
                Ok(SqlValue::Integer(*n as i64))
            } else {
                Ok(SqlValue::Real(Some(text::string_of(text::write_u64(*n).as_slice()))))
            }
        },
        Json::Float(t) => Ok(SqlValue::Real(Some(t.clone()))),
        Json::Str(s) => {
            let chars = text::chars_of(s.as_str());
            if text::starts_with(chars.as_slice(), "base64:") {
                proof {
                    reveal_strlit("base64:");
                }
                let body = text::string_of(strip_prefixes(chars.as_slice(), "base64:"));
                decoded_blob(decode_base64(body.as_str()))
            } else {
                Ok(SqlValue::Text(s.clone()))
            }
        },
        _ => Err(StorageError::invalid_arg("Configuration import values must be scalar")),
    }
}

/// A copy of a database value.
pub fn duplicate_sql(value: &SqlValue) -> (r: SqlValue)
    ensures
        r.deep_view() == value.deep_view(),
{
    match value {
        SqlValue::Null => SqlValue::Null,
        SqlValue::Integer(n) => SqlValue::Integer(*n),
        SqlValue::Real(Some(t)) => SqlValue::Real(Some(t.clone())),
        SqlValue::Real(None) => SqlValue::Real(None),
        SqlValue::Text(s) => SqlValue::Text(s.clone()),
        SqlValue::Blob(b) => {
            let mut copy: Vec<u8> = Vec::new();
            copy.extend_from_slice(b.as_slice());
            proof {
                assert(copy@ =~= b@);
            }
            SqlValue::Blob(copy)
        },
    }
}

/// A blob in base64 behind its prefix is read back as the blob.
pub proof fn law_blob_reads_back(b: Seq<u8>)
    requires
        reads_back(b),
    ensures
        sql_form(json_form(SqlModel::Blob(b))) == Ok::<SqlModel, ErrorModel>(SqlModel::Blob(b)),
{
    let p = "base64:"@;
    let t = base64_text(b);
    let s = p + t;
    reveal_strlit("base64:");
    assert(s.take(p.len() as int) =~= p);
    assert(s.skip(p.len() as int) =~= t);
    if text::begins(t, p) {
        assert(t[6] == t.take(p.len() as int)[6]);
        assert(t[6] == ':');
    }
    reveal_with_fuel(without_prefixes, 2);
}

} // verus!
