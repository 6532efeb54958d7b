//! Decisions of the document endpoints: which multipart field is the
//! uploaded file, where it is stored, and the answer for a missing document.
use vstd::prelude::*;
use crate::error::AppError;
use crate::ids::{new_v4, push_uuid, uuid_text, lemma_uuid_text_injective};
use crate::text::same_text;

verus! {

/// One field of a multipart upload.  `bytes` holds the content of a field
/// named `file` and may be left empty for other fields.
pub struct UploadField {
    pub name: Option<String>,
    pub file_name: Option<String>,
    pub content_type: Option<String>,
    pub bytes: Vec<u8>,
}

/// The uploaded file.
pub struct UploadedFile {
    pub filename: String,
    pub content_type: String,
    pub bytes: Vec<u8>,
}

/// An upload ready to be stored: where its content goes and its metadata.
pub struct PreparedUpload {
    pub filename: String,
    pub content_type: String,
    pub s3_key: String,
    pub size_bytes: i64,
    pub bytes: Vec<u8>,
}

/// The field carries the file: it is named `file`.
pub open spec fn is_file_field(name: Option<String>) -> bool {
    name matches Some(n) && n@ == "file"@
}

/// The text of an optional string, or `default`.
pub open spec fn text_or(v: Option<String>, default: Seq<char>) -> Seq<char> {
    match v {
        Some(s) => s@,
        None => default,
    }
}

/// The uploaded file keeps the name, content type and bytes its field
/// carries; `unknown` and `application/octet-stream` stand only for what
/// the field does not carry.
pub proof fn lemma_file_keeps_field(f: UploadField, file: UploadedFile)
    requires
        file_of(f, file),
    ensures
        f.file_name matches Some(n) ==> file.filename@ == n@,
        f.file_name is None ==> file.filename@ == "unknown"@,
        f.content_type matches Some(t) ==> file.content_type@ == t@,
        f.content_type is None ==> file.content_type@ == "application/octet-stream"@,
        file.bytes@ == f.bytes@,
{
}

/// Index of the last field named `file`, or -1.
pub open spec fn last_file_field(fields: Seq<UploadField>) -> int
    decreases fields.len(),
{
    if fields.len() == 0 {
        -1
    } else if is_file_field(fields.last().name) {
        fields.len() - 1
    } else {
        last_file_field(fields.drop_last())
    }
}

/// The file a field carries: its name (default `unknown`), its content type
/// (default `application/octet-stream`) and its bytes.
pub open spec fn file_of(f: UploadField, file: UploadedFile) -> bool {
    &&& file.filename@ == text_or(f.file_name, "unknown"@)
    &&& file.content_type@ == text_or(f.content_type, "application/octet-stream"@)
    &&& file.bytes@ == f.bytes@
}

/// The storage key of a document: `documents/<id>/<filename>`.
pub open spec fn object_key(id: u128, filename: Seq<char>) -> Seq<char> {
    "documents/"@ + uuid_text(id) + "/"@ + filename
}

/// The message for a document that does not exist.
pub open spec fn not_found_message(id: u128) -> Seq<char> {
    "document "@ + uuid_text(id) + " not found"@
}

/// Whether a multipart field is the one that carries the file.
pub fn is_file_field_name(name: &Option<String>) -> (r: bool)
    ensures
        r == is_file_field(*name),
{
    match name {
        Some(n) => same_text(n.as_str(), "file"),
        None => false,
    }
}

fn or_text(v: Option<String>, default: &str) -> (s: String)
    ensures
        s@ == text_or(v, default@),
{
    match v {
        Some(s) => s,
        None => default.to_owned(),
    }
}

proof fn lemma_last_file_field(fields: Seq<UploadField>)
    ensures
        -1 <= last_file_field(fields) < fields.len(),
        last_file_field(fields) >= 0 ==> is_file_field(fields[last_file_field(fields)].name),
        forall|j: int|
            last_file_field(fields) < j < fields.len() ==> !is_file_field(#[trigger] fields[j].name),
    decreases fields.len(),
{
    if fields.len() > 0 && !is_file_field(fields.last().name) {
        lemma_last_file_field(fields.drop_last());
        assert forall|j: int| last_file_field(fields) < j < fields.len() implies !is_file_field(
            #[trigger] fields[j].name,
        ) by {
            if j < fields.len() - 1 {
                assert(fields[j] == fields.drop_last()[j]);
            }
        }
    }
}

/// The file of an upload: the last field named `file` wins.  Without such a
/// field the upload is a bad request.
#[verifier::loop_isolation(false)]
pub fn select_file(fields: Vec<UploadField>) -> (r: Result<UploadedFile, AppError>)
    ensures
        r is Ok <==> last_file_field(fields@) >= 0,
        r matches Ok(file) ==> file_of(fields@[last_file_field(fields@)], file),
        r matches Ok(file) ==> (fields@[last_file_field(fields@)].file_name matches Some(n)
            ==> file.filename@ == n@),
        r matches Ok(file) ==> (fields@[last_file_field(fields@)].file_name is None
            ==> file.filename@ == "unknown"@),
        r matches Ok(file) ==> (fields@[last_file_field(fields@)].content_type matches Some(t)
            ==> file.content_type@ == t@),
        r matches Ok(file) ==> file.bytes@ == fields@[last_file_field(fields@)].bytes@,
        r is Err ==> (r matches Err(AppError::BadRequest(m)) && m@ == "no file field in upload"@),
{
    let ghost all = fields@;
    let mut rest = fields;
    proof {
        lemma_last_file_field(all);
    }
    while rest.len() > 0
        invariant
            rest@ =~= all.take(rest@.len() as int),
            rest@.len() <= all.len(),
            last_file_field(all) < rest@.len() as int ==> last_file_field(all) == last_file_field(
                rest@,
            ),
            forall|j: int| rest@.len() <= j < all.len() ==> !is_file_field(#[trigger] all[j].name),
            -1 <= last_file_field(all) < all.len(),
            last_file_field(all) >= 0 ==> is_file_field(all[last_file_field(all)].name),
            forall|j: int| last_file_field(all) < j < all.len() ==> !is_file_field(#[trigger] all[j].name),
        decreases rest@.len(),
    {
        let ghost before = rest@;
        let f = rest.pop().unwrap();
        proof {
            assert(before.last() == f);
            assert(rest@ =~= before.drop_last());
            assert(all[before.len() - 1] == f);
        }
        if is_file_field_name(&f.name) {
            proof {
                assert(is_file_field(all[before.len() - 1].name));
                assert(last_file_field(all) == before.len() - 1);
            }
            let file = UploadedFile {
                filename: or_text(f.file_name, "unknown"),
                content_type: or_text(f.content_type, "application/octet-stream"),
                bytes: f.bytes,
            };
            return Ok(file);
        }
    }
    Err(AppError::BadRequest("no file field in upload".to_owned()))
}

/// The storage key `documents/<id>/<filename>`.
pub fn storage_key(id: u128, filename: &str) -> (k: String)
    ensures
        k@ == object_key(id, filename@),
{
    let mut k = "documents/".to_owned();
    push_uuid(&mut k, id);
    k.append("/");
    k.append(filename);
    k
}

/// Prepares the storage of an uploaded file under the document id `id`.
pub fn prepare_upload(file: UploadedFile, id: u128) -> (p: PreparedUpload)
    ensures
        p.filename@ == file.filename@,
        p.content_type@ == file.content_type@,
        p.s3_key@ == object_key(id, file.filename@),
        p.size_bytes == file.bytes@.len() as i64,
        p.bytes@ == file.bytes@,
{
    let s3_key = storage_key(id, file.filename.as_str());
    let size_bytes = file.bytes.len() as i64;
    PreparedUpload {
        filename: file.filename,
        content_type: file.content_type,
        s3_key,
        size_bytes,
        bytes: file.bytes,
    }
}

/// Prepares the storage of an uploaded file under a fresh random id.
pub fn new_upload(file: UploadedFile) -> (p: PreparedUpload)
    ensures
        p.filename@ == file.filename@,
        p.content_type@ == file.content_type@,
        exists|id: u128|
            p.s3_key@ == object_key(id, file.filename@) && (id >> 76u128) & 0xf == 4 && (id >> 62u128)
                & 0x3 == 2,
        p.size_bytes == file.bytes@.len() as i64,
        p.bytes@ == file.bytes@,
{
    let id = new_v4();
    prepare_upload(file, id)
}

/// A looked-up document, or `NotFound` naming its id.
pub fn document_or_not_found<T>(doc: Option<T>, id: u128) -> (r: Result<T, AppError>)
    ensures
        doc is Some ==> r == Ok::<T, AppError>(doc->0),
        doc is None ==> (r matches Err(AppError::NotFound(m)) && m@ == not_found_message(id)),
{
    match doc {
        Some(d) => Ok(d),
        None => {
            let mut m = "document ".to_owned();
            push_uuid(&mut m, id);
            m.append(" not found");
            Err(AppError::NotFound(m))
        },
    }
}

/// Storage keys are distinct for distinct documents or file names.
pub proof fn lemma_object_key_injective(a: u128, f: Seq<char>, b: u128, g: Seq<char>)
    requires
        object_key(a, f) == object_key(b, g),
    ensures
        a == b,
        f == g,
{
    reveal_strlit("documents/");
    reveal_strlit("/");
    let ka = object_key(a, f);
    let kb = object_key(b, g);
    assert(ka.subrange(10, 46) =~= uuid_text(a));
    assert(kb.subrange(10, 46) =~= uuid_text(b));
    lemma_uuid_text_injective(a, b);
    assert(ka.skip(47) =~= f);
    assert(kb.skip(47) =~= g);
}

} // verus!
