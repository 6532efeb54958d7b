use knowledgebase::auth::authorize;
use knowledgebase::config::{AppConfig, ConfigError, ConfigVars};
use knowledgebase::documents::{
    document_or_not_found, is_file_field_name, new_upload, prepare_upload, select_file,
    storage_key, UploadField, UploadedFile,
};
use knowledgebase::error::AppError;
use knowledgebase::ids::uuid_to_string;
use knowledgebase::numbers::{i32_to_string, parse_u16};
use knowledgebase::rag::{indexes_of_document, page_answer, search_answer, FoundPage, PageAnswer};
use knowledgebase::rag::{
    build_response, list_indexed_documents, new_thread_id, page_not_found, page_request,
    search_scope, DocStatus, DocumentSummary, PageRequest, QueryOutcome, SearchScope, ToolCall,
    Turn,
};
use knowledgebase::storage::{bucket_outcome, bucket_settings, create_bucket, s3_endpoint};

fn vars() -> ConfigVars {
    ConfigVars {
        database_url: Some("postgres://db".to_string()),
        s3_region: None,
        s3_access_key: Some("ak".to_string()),
        s3_secret_key: Some("sk".to_string()),
        s3_bucket: None,
        s3_endpoint: Some(String::new()),
        openai_api_key: Some("key".to_string()),
        openai_model: None,
        host: None,
        port: None,
        admin_password: Some("pw".to_string()),
        knowledgebase_name: None,
        system_prompt_extra: None,
    }
}

#[test]
fn config_defaults() {
    let c = AppConfig::from_vars(vars()).ok().unwrap();
    assert_eq!(c.s3_region, "nyc3");
    assert_eq!(c.s3_bucket, "knowledgebase-docs");
    assert_eq!(c.s3_endpoint, None);
    assert_eq!(c.openai_model, "gpt-5.4");
    assert_eq!(c.host, "0.0.0.0");
    assert_eq!(c.port, 3000);
    assert_eq!(c.knowledgebase_name, "Knowledgebase");
    assert_eq!(c.system_prompt_extra, None);
    assert_eq!(c.admin_password, "pw");
}

#[test]
fn config_errors_in_order() {
    let mut v = vars();
    v.database_url = None;
    v.admin_password = None;
    let e = AppConfig::from_vars(v).err().unwrap();
    assert!(e == ConfigError::MissingDatabaseUrl);
    assert_eq!(e.message(), "DATABASE_URL required");

    let mut v = vars();
    v.port = Some("70000".to_string());
    let e = AppConfig::from_vars(v).err().unwrap();
    assert!(e == ConfigError::InvalidPort);
    assert_eq!(e.message(), "PORT must be a number");

    let mut v = vars();
    v.admin_password = None;
    assert!(AppConfig::from_vars(v).err().unwrap() == ConfigError::MissingAdminPassword);
    let mut v = vars();
    v.s3_access_key = None;
    assert!(AppConfig::from_vars(v).err().unwrap() == ConfigError::MissingS3AccessKey);
    let mut v = vars();
    v.s3_secret_key = None;
    assert!(AppConfig::from_vars(v).err().unwrap() == ConfigError::MissingS3SecretKey);
    let mut v = vars();
    v.openai_api_key = None;
    assert!(AppConfig::from_vars(v).err().unwrap() == ConfigError::MissingOpenaiApiKey);
}

#[test]
fn port_parsing_matches_u16_from_str() {
    for s in ["0", "+8080", "65535", "65536", "", "+", "-1", "12a", " 1", "00042"] {
        assert_eq!(parse_u16(s), s.parse::<u16>().ok(), "input {s:?}");
    }
    for p in [0u16, 7, 80, 3000, 65535] {
        assert_eq!(parse_u16(&p.to_string()), Some(p));
    }
}

#[test]
fn decimal_rendering_matches_display() {
    for n in [0, 5, -5, 42, i32::MAX, i32::MIN, -1000] {
        assert_eq!(i32_to_string(n), n.to_string());
    }
}

#[test]
fn uuid_text_matches_uuid_display() {
    for v in [0u128, 1, u128::MAX, 0x67e5504410b1426f9247bb680e5fe0c8] {
        assert_eq!(uuid_to_string(v), uuid::Uuid::from_u128(v).to_string());
    }
    assert_eq!(
        uuid_to_string(0x67e5504410b1426f9247bb680e5fe0c8),
        "67e55044-10b1-426f-9247-bb680e5fe0c8"
    );
}

#[test]
fn auth_accepts_only_bearer_password() {
    assert!(authorize(Some(b"Bearer pw"), "pw").is_ok());
    for h in [&b"Bearer pw "[..], b"bearer pw", b"Bearer ", b"pw", b"Bearer p\xc3w"] {
        assert!(matches!(authorize(Some(h), "pw"), Err(AppError::Unauthorized)));
    }
    assert!(authorize(None, "pw").is_err());
    assert!(authorize(Some(b"Bearer "), "").is_err());
}

#[test]
fn error_responses() {
    let r = AppError::NotFound("document x".to_string()).into_response();
    assert_eq!((r.status, r.error.as_str()), (404, "document x"));
    let r = AppError::BadRequest("bad".to_string()).into_response();
    assert_eq!((r.status, r.error.as_str()), (400, "bad"));
    let r = AppError::Unauthorized.into_response();
    assert_eq!((r.status, r.error.as_str()), (401, "unauthorized"));
    let r = AppError::Database("secret detail".to_string()).into_response();
    assert_eq!((r.status, r.error.as_str()), (500, "internal server error"));
    let r = AppError::S3("secret detail".to_string()).into_response();
    assert_eq!((r.status, r.error.as_str()), (500, "storage error"));
    let r = AppError::Internal("secret detail".to_string()).into_response();
    assert_eq!((r.status, r.error.as_str()), (500, "internal server error"));
    assert_eq!(AppError::S3("boom".to_string()).describe(), "s3 error: boom");
    assert_eq!(AppError::Unauthorized.describe(), "unauthorized");
}

fn field(name: Option<&str>, file_name: Option<&str>, bytes: &[u8]) -> UploadField {
    UploadField {
        name: name.map(|s| s.to_string()),
        file_name: file_name.map(|s| s.to_string()),
        content_type: None,
        bytes: bytes.to_vec(),
    }
}

#[test]
fn upload_takes_last_file_field() {
    let fields = vec![
        field(Some("file"), Some("a.md"), b"first"),
        field(Some("other"), Some("b.md"), b"x"),
        field(Some("file"), None, b"second"),
        field(None, Some("c.md"), b"y"),
    ];
    let f = select_file(fields).ok().unwrap();
    assert_eq!(f.filename, "unknown");
    assert_eq!(f.content_type, "application/octet-stream");
    assert_eq!(f.bytes, b"second".to_vec());
    match select_file(vec![field(Some("other"), None, b"")]) {
        Err(AppError::BadRequest(m)) => assert_eq!(m, "no file field in upload"),
        _ => panic!("expected a bad request"),
    }
    assert!(is_file_field_name(&Some("file".to_string())));
    assert!(!is_file_field_name(&None));
}

#[test]
fn storage_keys_and_uploads() {
    let id = 0x67e5504410b1426f9247bb680e5fe0c8u128;
    assert_eq!(storage_key(id, "a b.md"), "documents/67e55044-10b1-426f-9247-bb680e5fe0c8/a b.md");
    let file = UploadedFile {
        filename: "r.md".to_string(),
        content_type: "text/markdown".to_string(),
        bytes: vec![1, 2, 3],
    };
    let p = prepare_upload(file, id);
    assert_eq!(p.size_bytes, 3);
    assert_eq!(p.s3_key, "documents/67e55044-10b1-426f-9247-bb680e5fe0c8/r.md");
    let file = UploadedFile {
        filename: "r.md".to_string(),
        content_type: "text/markdown".to_string(),
        bytes: vec![1, 2, 3],
    };
    let p = new_upload(file);
    let middle = &p.s3_key["documents/".len()..p.s3_key.len() - "/r.md".len()];
    let parsed = uuid::Uuid::parse_str(middle).unwrap();
    assert_eq!(parsed.get_version_num(), 4);
    assert!(p.s3_key.starts_with("documents/") && p.s3_key.ends_with("/r.md"));
}

#[test]
fn missing_document_is_not_found() {
    let id = 1u128;
    match document_or_not_found::<u8>(None, id) {
        Err(AppError::NotFound(m)) => {
            assert_eq!(m, "document 00000000-0000-0000-0000-000000000001 not found")
        }
        _ => panic!("expected not found"),
    }
    assert!(matches!(document_or_not_found(Some(5u8), id), Ok(5)));
}

#[test]
fn tool_arguments() {
    assert!(search_scope(None).ok().unwrap() == SearchScope::AllDocuments);
    let s = search_scope(Some("67E55044-10B1-426F-9247-BB680E5FE0C8")).ok().unwrap();
    assert!(s == SearchScope::Document(0x67e5504410b1426f9247bb680e5fe0c8));
    let e = search_scope(Some("not-a-uuid")).err().unwrap();
    assert_eq!(e.node, "search_index");
    let cause = uuid::Uuid::parse_str("not-a-uuid").unwrap_err().to_string();
    assert_eq!(e.message, format!("invalid document_id: {cause}"));

    let e = page_request(None, Some(3)).err().unwrap();
    assert_eq!((e.node.as_str(), e.message.as_str()), ("read_page", "document_id required"));
    let r = page_request(Some("00000000-0000-0000-0000-000000000002"), None).ok().unwrap();
    assert!(r == PageRequest { document_id: 2, page_num: 1 });
    let r = page_request(Some("00000000000000000000000000000002"), Some(4294967297)).ok().unwrap();
    assert!(r == PageRequest { document_id: 2, page_num: 1 });
    let e = page_request(Some("zz"), Some(1)).err().unwrap();
    assert!(e.message.starts_with("invalid document_id: "));
    assert_eq!(
        page_not_found(-3, 2),
        "page -3 not found in document 00000000-0000-0000-0000-000000000002"
    );
}

#[test]
fn listing_keeps_indexed_documents_in_order() {
    let doc = |id: u128, name: &str, status| DocumentSummary {
        id,
        filename: name.to_string(),
        page_count: Some(2),
        status,
    };
    let listing = list_indexed_documents(vec![
        doc(1, "a", DocStatus::Indexed),
        doc(2, "b", DocStatus::Uploaded),
        doc(3, "c", DocStatus::Indexed),
        doc(4, "d", DocStatus::Failed),
    ]);
    assert_eq!(listing.count, 2);
    assert_eq!(listing.documents[0].filename, "a");
    assert_eq!(listing.documents[1].id, "00000000-0000-0000-0000-000000000003");
    assert!(listing.documents.iter().all(|d| d.status == DocStatus::Indexed));
}

#[test]
fn responses_trace_tool_calls() {
    let call = |n: &str, a: &str| ToolCall { name: n.to_string(), args: a.to_string() };
    let outcome = QueryOutcome::Completed {
        final_answer: None,
        turns: vec![
            Turn { tool_calls: vec![call("list_documents", "{}")] },
            Turn { tool_calls: vec![] },
            Turn {
                tool_calls: vec![
                    call("search_index", "{\"query\":\"x\"}"),
                    call("read_page", "{\"page_num\":1}"),
                ],
            },
        ],
        tools_called: vec!["list_documents".to_string()],
    };
    let r = build_response(outcome);
    assert_eq!(r.answer, "No answer could be generated.");
    assert_eq!(
        r.reasoning_path,
        vec![
            "list_documents({})".to_string(),
            "search_index({\"query\":\"x\"}) → read_page({\"page_num\":1})".to_string(),
        ]
    );
    assert_eq!(r.tools_used, vec!["list_documents".to_string()]);
    let r = build_response(QueryOutcome::Interrupted { reason: "max steps".to_string() });
    assert_eq!(r.answer, "Query interrupted: max steps");
    assert!(r.reasoning_path.is_empty() && r.tools_used.is_empty());
    let t = new_thread_id();
    assert!(t.starts_with("query-") && t.len() == 42);
}

#[test]
fn object_store_endpoint() {
    let mut c = AppConfig::from_vars(vars()).ok().unwrap();
    assert_eq!(s3_endpoint(&c), "https://nyc3.digitaloceanspaces.com");
    c.s3_endpoint = Some("http://minio:9000".to_string());
    assert_eq!(s3_endpoint(&c), "http://minio:9000");
    let store = create_bucket(&c).ok().unwrap();
    assert_eq!(store.bucket().name(), "knowledgebase-docs");
    assert!(store.bucket().is_path_style());
    assert_eq!(
        store.bucket().region(),
        s3::Region::Custom {
            region: "nyc3".to_string(),
            endpoint: "http://minio:9000".to_string()
        }
    );
    c.s3_endpoint = None;
    let store = create_bucket(&c).ok().unwrap();
    assert_eq!(
        store.bucket().region(),
        s3::Region::Custom {
            region: "nyc3".to_string(),
            endpoint: "https://nyc3.digitaloceanspaces.com".to_string()
        }
    );
}

#[test]
fn storage_keys_differ_for_different_documents_or_names() {
    let a = storage_key(1, "x.md");
    assert_ne!(a, storage_key(2, "x.md"));
    assert_ne!(a, storage_key(1, "y.md"));
    assert_eq!(a, storage_key(1, "x.md"));
}

#[test]
fn object_store_settings_and_outcome() {
    let c = AppConfig::from_vars(vars()).ok().unwrap();
    let s = bucket_settings(&c);
    assert_eq!(s.name, "knowledgebase-docs");
    assert_eq!(s.region, "nyc3");
    assert_eq!(s.endpoint, "https://nyc3.digitaloceanspaces.com");
    assert_eq!((s.access_key.as_str(), s.secret_key.as_str()), ("ak", "sk"));
    match bucket_outcome(Err("client failed".to_string())) {
        Err(AppError::S3(m)) => assert_eq!(m, "client failed"),
        _ => panic!("expected an S3 error"),
    }
}

#[test]
fn tool_answers() {
    assert_eq!(indexes_of_document(Some(7u8)), vec![7u8]);
    assert!(indexes_of_document::<u8>(None).is_empty());
    let a = search_answer(vec![(1u128, "x"), (2u128, "y")]);
    assert_eq!(a.count, 2);
    assert_eq!(a.indexes[1].document_id, "00000000-0000-0000-0000-000000000002");
    assert_eq!(a.indexes[1].root_index, "y");
    let req = PageRequest { document_id: 3, page_num: 2 };
    match page_answer(req, Some(FoundPage { page_num: 2, content: "c".to_string(), tree_index: 5u8 })) {
        PageAnswer::Page { document_id, page_num, content, tree_index } => {
            assert_eq!(document_id, "00000000-0000-0000-0000-000000000003");
            assert_eq!((page_num, content.as_str(), tree_index), (2, "c", 5));
        }
        _ => panic!("expected a page"),
    }
    match page_answer::<u8>(req, None) {
        PageAnswer::Missing { error } => {
            assert_eq!(error, "page 2 not found in document 00000000-0000-0000-0000-000000000003")
        }
        _ => panic!("expected a missing page"),
    }
    let printed = knowledgebase::ids::uuid_to_string(0xabcdef);
    assert!(search_scope(Some(&printed)).ok().unwrap() == SearchScope::Document(0xabcdef));
}
