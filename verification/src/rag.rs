//! The retrieval agent's tools and the answer it gives: which documents are
//! listed, how tool arguments are read, and how a run becomes a response.
use vstd::prelude::*;
use crate::ids::{lemma_uuid_text_injective, new_v4, parse_uuid, push_uuid, uuid_parse, uuid_text};
use crate::numbers::{i32_to_string, signed_decimal};
use crate::text::{join, lemma_join_push};

verus! {

// ---------------------------------------------------------------------------
// Listing documents
// ---------------------------------------------------------------------------

/// The processing state of a document.
#[derive(PartialEq, Eq, Structural, Clone, Copy)]
pub enum DocStatus {
    Uploaded,
    Processing,
    Indexed,
    Failed,
}

/// What the listing tool reads of a stored document.
pub struct DocumentSummary {
    pub id: u128,
    pub filename: String,
    pub page_count: Option<i32>,
    pub status: DocStatus,
}

/// A document as the listing tool shows it.
pub struct ListedDocument {
    pub id: String,
    pub filename: String,
    pub page_count: Option<i32>,
    pub status: DocStatus,
}

/// The answer of the listing tool.
pub struct DocumentListing {
    pub documents: Vec<ListedDocument>,
    pub count: usize,
}

/// The indexed documents among `docs`, in order.
pub open spec fn indexed_only(docs: Seq<DocumentSummary>) -> Seq<DocumentSummary>
    decreases docs.len(),
{
    if docs.len() == 0 {
        docs
    } else if docs.last().status == DocStatus::Indexed {
        indexed_only(docs.drop_last()).push(docs.last())
    } else {
        indexed_only(docs.drop_last())
    }
}

/// The listing keeps exactly the indexed documents, in their order: it is
/// the input filtered by status `Indexed`, so every listed document is
/// indexed and no indexed document is left out.
pub proof fn lemma_indexed_only_filters(docs: Seq<DocumentSummary>)
    ensures
        indexed_only(docs) == docs.filter(|d: DocumentSummary| d.status == DocStatus::Indexed),
        forall|i: int|
            0 <= i < indexed_only(docs).len() ==> (#[trigger] indexed_only(docs)[i]).status
                == DocStatus::Indexed,
    decreases docs.len(),
{
    reveal(Seq::filter);
    if docs.len() > 0 {
        lemma_indexed_only_filters(docs.drop_last());
        let r = indexed_only(docs);
        let q = indexed_only(docs.drop_last());
        assert forall|i: int| 0 <= i < r.len() implies (#[trigger] r[i]).status
            == DocStatus::Indexed by {
            if i < q.len() {
                assert(r[i] == q[i]);
            }
        }
    }
}

/// `l` shows the document `d`.
pub open spec fn shows(l: ListedDocument, d: DocumentSummary) -> bool {
    &&& l.id@ == uuid_text(d.id)
    &&& l.filename@ == d.filename@
    &&& l.page_count == d.page_count
    &&& l.status == d.status
}

/// The listing of the indexed documents, in the order given, with their
/// count.
pub fn list_indexed_documents(docs: Vec<DocumentSummary>) -> (r: DocumentListing)
    ensures
        r.documents@.len() == indexed_only(docs@).len(),
        forall|i: int|
            0 <= i < r.documents@.len() ==> shows(#[trigger] r.documents@[i], indexed_only(docs@)[i]),
        r.count == r.documents@.len(),
        forall|i: int|
            0 <= i < r.documents@.len() ==> (#[trigger] r.documents@[i]).status
                == DocStatus::Indexed,
        r.documents@.len() == docs@.filter(|d: DocumentSummary| d.status == DocStatus::Indexed).len(),
{
    proof {
        lemma_indexed_only_filters(docs@);
    }
    let mut out: Vec<ListedDocument> = Vec::new();
    let mut k: usize = 0;
    while k < docs.len()
        invariant
            k <= docs@.len(),
            out@.len() == indexed_only(docs@.take(k as int)).len(),
            forall|i: int|
                0 <= i < out@.len() ==> shows(#[trigger] out@[i], indexed_only(docs@.take(k as int))[i]),
        decreases docs@.len() - k,
    {
        let d = &docs[k];
        proof {
            assert(docs@.take(k + 1).drop_last() =~= docs@.take(k as int));
            assert(docs@.take(k + 1).last() == docs@[k as int]);
        }
        if d.status == DocStatus::Indexed {
            let mut id = String::new();
            push_uuid(&mut id, d.id);
            let l = ListedDocument {
                id,
                filename: d.filename.clone(),
                page_count: d.page_count,
                status: d.status,
            };
            out.push(l);
        }
        k = k + 1;
    }
    assert(docs@.take(docs@.len() as int) =~= docs@);
    let count = out.len();
    DocumentListing { documents: out, count }
}

// ---------------------------------------------------------------------------
// Tool arguments
// ---------------------------------------------------------------------------

/// A failure of a tool, reported against the tool (`node`).
pub struct ToolError {
    pub node: String,
    pub message: String,
}

/// Which document indexes a search covers.
#[derive(PartialEq, Eq, Structural, Clone, Copy)]
pub enum SearchScope {
    AllDocuments,
    Document(u128),
}

/// A page to read.
#[derive(PartialEq, Eq, Structural, Clone, Copy)]
pub struct PageRequest {
    pub document_id: u128,
    pub page_num: i32,
}

/// The text of an optional string.
pub open spec fn opt_text(v: Option<&str>) -> Option<Seq<char>> {
    match v {
        Some(s) => Some(s@),
        None => None,
    }
}

/// The outcome of reading an optional document id: `None` when absent.
pub open spec fn parsed_id(document_id: Option<Seq<char>>) -> Option<Result<u128, Seq<char>>> {
    match document_id {
        Some(s) => Some(uuid_parse(s)),
        None => None,
    }
}

/// The view of a parse outcome.
pub open spec fn parse_view(p: Option<Result<u128, String>>) -> Option<Result<u128, Seq<char>>> {
    match p {
        Some(Ok(v)) => Some(Ok(v)),
        Some(Err(e)) => Some(Err(e@)),
        None => None,
    }
}

/// The error of a tool whose document id does not parse.
pub open spec fn invalid_id_error(e: ToolError, node: Seq<char>, cause: Seq<char>) -> bool {
    e.node@ == node && e.message@ == "invalid document_id: "@ + cause
}

fn tool_error(node: &str, message: String) -> (e: ToolError)
    ensures
        e.node@ == node@,
        e.message@ == message@,
{
    ToolError { node: node.to_owned(), message }
}

fn invalid_id(node: &str, cause: String) -> (e: ToolError)
    ensures
        invalid_id_error(e, node@, cause@),
{
    let mut m = "invalid document_id: ".to_owned();
    m.append(cause.as_str());
    tool_error(node, m)
}

fn read_id(document_id: Option<&str>) -> (r: Option<Result<u128, String>>)
    ensures
        parse_view(r) == parsed_id(opt_text(document_id)),
        forall|v: u128|
            opt_text(document_id) == Some(uuid_text(v)) ==> r == Some(Ok::<u128, String>(v)),
{
    match document_id {
        Some(s) => {
            let p = parse_uuid(s);
            proof {
                assert forall|v: u128| s@ == uuid_text(v) implies p == Ok::<u128, String>(v) by {
                    if let Ok(w) = p {
                        lemma_uuid_text_injective(v, w);
                    }
                }
            }
            Some(p)
        },
        None => None,
    }
}

/// The scope of a search from the outcome of reading its optional document
/// id: every document when there is none, that document when it parses, and
/// an error naming the cause otherwise.
pub fn search_scope_from(parsed: Option<Result<u128, String>>) -> (r: Result<SearchScope, ToolError>)
    ensures
        parsed is None ==> r == Ok::<SearchScope, ToolError>(SearchScope::AllDocuments),
        parsed matches Some(Ok(id)) ==> r == Ok::<SearchScope, ToolError>(SearchScope::Document(id)),
        parsed matches Some(Err(cause)) ==> (r matches Err(e) && invalid_id_error(
            e,
            "search_index"@,
            cause@,
        )),
{
    match parsed {
        None => Ok(SearchScope::AllDocuments),
        Some(Ok(id)) => Ok(SearchScope::Document(id)),
        Some(Err(cause)) => Err(invalid_id("search_index", cause)),
    }
}

/// The scope of a search for its optional `document_id` argument.
pub fn search_scope(document_id: Option<&str>) -> (r: Result<SearchScope, ToolError>)
    ensures
        document_id is None ==> r == Ok::<SearchScope, ToolError>(SearchScope::AllDocuments),
        parsed_id(opt_text(document_id)) matches Some(Ok(id)) ==> r == Ok::<SearchScope, ToolError>(
            SearchScope::Document(id),
        ),
        parsed_id(opt_text(document_id)) matches Some(Err(cause)) ==> (r matches Err(e)
            && invalid_id_error(e, "search_index"@, cause)),
        forall|v: u128|
            opt_text(document_id) == Some(uuid_text(v)) ==> r == Ok::<SearchScope, ToolError>(
                SearchScope::Document(v),
            ),
{
    search_scope_from(read_id(document_id))
}

/// The page a read asks for, from the outcome of reading its document id
/// and its page number (default 1, cut to 32 bits).
pub fn page_request_from(parsed: Option<Result<u128, String>>, page_num: Option<i64>) -> (r: Result<
    PageRequest,
    ToolError,
>)
    ensures
        parsed is None ==> (r matches Err(e) && e.node@ == "read_page"@ && e.message@
            == "document_id required"@),
        parsed matches Some(Ok(id)) ==> r == Ok::<PageRequest, ToolError>(
            PageRequest {
                document_id: id,
                page_num: match page_num {
                    Some(n) => n as i32,
                    None => 1,
                },
            },
        ),
        parsed matches Some(Err(cause)) ==> (r matches Err(e) && invalid_id_error(
            e,
            "read_page"@,
            cause@,
        )),
{
    match parsed {
        None => Err(tool_error("read_page", "document_id required".to_owned())),
        Some(Err(cause)) => Err(invalid_id("read_page", cause)),
        Some(Ok(id)) => {
            let n: i32 = match page_num {
                Some(n) => n as i32,
                None => 1,
            };
            Ok(PageRequest { document_id: id, page_num: n })
        },
    }
}

/// The page a read asks for, from its `document_id` and `page_num`
/// arguments.
pub fn page_request(document_id: Option<&str>, page_num: Option<i64>) -> (r: Result<
    PageRequest,
    ToolError,
>)
    ensures
        document_id is None ==> (r matches Err(e) && e.node@ == "read_page"@ && e.message@
            == "document_id required"@),
        parsed_id(opt_text(document_id)) matches Some(Ok(id)) ==> r == Ok::<PageRequest, ToolError>(
            PageRequest {
                document_id: id,
                page_num: match page_num {
                    Some(n) => n as i32,
                    None => 1,
                },
            },
        ),
        parsed_id(opt_text(document_id)) matches Some(Err(cause)) ==> (r matches Err(e)
            && invalid_id_error(e, "read_page"@, cause)),
        forall|v: u128|
            opt_text(document_id) == Some(uuid_text(v)) ==> r == Ok::<PageRequest, ToolError>(
                PageRequest {
                    document_id: v,
                    page_num: match page_num {
                        Some(n) => n as i32,
                        None => 1,
                    },
                },
            ),
{
    page_request_from(read_id(document_id), page_num)
}

/// One document index in the answer of a search.
pub struct IndexEntry<T> {
    pub document_id: String,
    pub root_index: T,
}

/// The answer of a search: the indexes it found and their count.
pub struct SearchAnswer<T> {
    pub indexes: Vec<IndexEntry<T>>,
    pub count: usize,
}

/// The indexes a search of one document covers: that document's index when
/// it has one, and none otherwise (an unknown document is no error).
pub fn indexes_of_document<T>(found: Option<T>) -> (r: Vec<T>)
    ensures
        r@ == match found {
            Some(x) => seq![x],
            None => Seq::<T>::empty(),
        },
{
    let mut r: Vec<T> = Vec::new();
    match found {
        Some(x) => {
            r.push(x);
        },
        None => {},
    }
    proof {
        if found is Some {
            assert(r@ =~= seq![found->0]);
        } else {
            assert(r@ =~= Seq::<T>::empty());
        }
    }
    r
}

/// The answer of a search: each found index under the text of its
/// document's id, in the order found, and their count.
pub fn search_answer<T>(found: Vec<(u128, T)>) -> (r: SearchAnswer<T>)
    ensures
        r.indexes@.len() == found@.len(),
        forall|i: int|
            0 <= i < found@.len() ==> (#[trigger] r.indexes@[i]).document_id@ == uuid_text(
                found@[i].0,
            ) && r.indexes@[i].root_index == found@[i].1,
        r.count == found@.len(),
{
    let ghost all = found@;
    let mut rest = found;
    let mut out: Vec<IndexEntry<T>> = Vec::new();
    while rest.len() > 0
        invariant
            out@.len() + rest@.len() == all.len(),
            rest@ == all.skip(out@.len() as int),
            forall|i: int|
                0 <= i < out@.len() ==> (#[trigger] out@[i]).document_id@ == uuid_text(all[i].0)
                    && out@[i].root_index == all[i].1,
        decreases rest@.len(),
    {
        let ghost before = rest@;
        let (id, root_index) = rest.remove(0);
        proof {
            assert(before[0] == all[out@.len() as int]);
            assert(rest@ =~= all.skip(out@.len() as int + 1));
        }
        let mut document_id = String::new();
        push_uuid(&mut document_id, id);
        out.push(IndexEntry { document_id, root_index });
    }
    let count = out.len();
    SearchAnswer { indexes: out, count }
}

/// A stored page as the reading tool finds it.
pub struct FoundPage<T> {
    pub page_num: i32,
    pub content: String,
    pub tree_index: T,
}

/// The answer of the reading tool: the page with its document id, or a
/// message that the page does not exist.
pub enum PageAnswer<T> {
    Page { document_id: String, page_num: i32, content: String, tree_index: T },
    Missing { error: String },
}

/// The answer of the reading tool for a request and the page found for it.
pub fn page_answer<T>(request: PageRequest, found: Option<FoundPage<T>>) -> (r: PageAnswer<T>)
    ensures
        found matches Some(p) ==> (r matches PageAnswer::Page {
            document_id,
            page_num,
            content,
            tree_index,
        } && document_id@ == uuid_text(request.document_id) && page_num == p.page_num && content@
            == p.content@ && tree_index == p.tree_index),
        found is None ==> (r matches PageAnswer::Missing { error } && error@ == page_not_found_text(
            request.page_num,
            request.document_id,
        )),
{
    match found {
        Some(p) => {
            let mut document_id = String::new();
            push_uuid(&mut document_id, request.document_id);
            PageAnswer::Page {
                document_id,
                page_num: p.page_num,
                content: p.content,
                tree_index: p.tree_index,
            }
        },
        None => PageAnswer::Missing { error: page_not_found(request.page_num, request.document_id) },
    }
}

/// The message for a page that does not exist.
pub open spec fn page_not_found_text(page_num: i32, id: u128) -> Seq<char> {
    "page "@ + signed_decimal(page_num as int) + " not found in document "@ + uuid_text(id)
}

/// The message for a page that does not exist.
pub fn page_not_found(page_num: i32, id: u128) -> (m: String)
    ensures
        m@ == page_not_found_text(page_num, id),
{
    let mut m = "page ".to_owned();
    let n = i32_to_string(page_num);
    m.append(n.as_str());
    m.append(" not found in document ");
    push_uuid(&mut m, id);
    m
}

// ---------------------------------------------------------------------------
// Responses
// ---------------------------------------------------------------------------

/// A question asked of the knowledge base.
pub struct QueryRequest {
    pub question: String,
}

/// A tool call the agent made, with its arguments as JSON text.
pub struct ToolCall {
    pub name: String,
    pub args: String,
}

/// One turn of the agent.
pub struct Turn {
    pub tool_calls: Vec<ToolCall>,
}

/// How a run of the agent ended.
pub enum QueryOutcome {
    Completed { final_answer: Option<String>, turns: Vec<Turn>, tools_called: Vec<String> },
    Interrupted { reason: String },
}

/// The answer to a question, with the trace of tool calls behind it.
pub struct RagResponse {
    pub answer: String,
    pub reasoning_path: Vec<String>,
    pub tools_used: Vec<String>,
}

/// The separator between the calls of a turn.
pub open spec fn call_sep() -> Seq<char> {
    " → "@
}

/// A call as `name(args)`.
pub open spec fn call_text(c: ToolCall) -> Seq<char> {
    c.name@ + "("@ + c.args@ + ")"@
}

/// The calls of a turn, joined by ` → `.
pub open spec fn turn_text(calls: Seq<ToolCall>) -> Seq<char> {
    join(calls.map_values(|c: ToolCall| call_text(c)), call_sep())
}

/// The texts of the turns that made tool calls, in order.
pub open spec fn reasoning_path(turns: Seq<Turn>) -> Seq<Seq<char>>
    decreases turns.len(),
{
    if turns.len() == 0 {
        Seq::empty()
    } else if turns.last().tool_calls@.len() > 0 {
        reasoning_path(turns.drop_last()).push(turn_text(turns.last().tool_calls@))
    } else {
        reasoning_path(turns.drop_last())
    }
}

/// The answer text of an outcome.
pub open spec fn answer_of(outcome: QueryOutcome) -> Seq<char> {
    match outcome {
        QueryOutcome::Completed { final_answer, .. } => match final_answer {
            Some(a) => a@,
            None => "No answer could be generated."@,
        },
        QueryOutcome::Interrupted { reason } => "Query interrupted: "@ + reason@,
    }
}

fn turn_string(calls: &Vec<ToolCall>) -> (s: String)
    ensures
        s@ == turn_text(calls@),
{
    let ghost texts = calls@.map_values(|c: ToolCall| call_text(c));
    let mut s = String::new();
    let mut i: usize = 0;
    while i < calls.len()
        invariant
            i <= calls@.len(),
            texts == calls@.map_values(|c: ToolCall| call_text(c)),
            s@ == join(texts.take(i as int), call_sep()),
        decreases calls@.len() - i,
    {
        let c = &calls[i];
        proof {
            assert(texts.take(i + 1) =~= texts.take(i as int).push(call_text(*c)));
            lemma_join_push(texts.take(i as int), call_sep(), call_text(*c));
        }
        if i > 0 {
            s.append(" → ");
        }
        s.append(c.name.as_str());
        s.append("(");
        s.append(c.args.as_str());
        s.append(")");
        proof {
            if i == 0 {
                assert(texts.take(0) =~= Seq::<Seq<char>>::empty());
            }
        }
        i = i + 1;
    }
    assert(texts.take(calls@.len() as int) =~= texts);
    s
}

/// The response to a finished run: the final answer (or a fixed text when
/// there is none), one line per turn that called tools, and the tools used;
/// for an interrupted run, the reason and empty traces.
pub fn build_response(outcome: QueryOutcome) -> (r: RagResponse)
    ensures
        r.answer@ == answer_of(outcome),
        outcome matches QueryOutcome::Completed { turns, tools_called, .. } ==> {
            &&& r.reasoning_path@.map_values(|p: String| p@) == reasoning_path(turns@)
            &&& r.tools_used@ == tools_called@
        },
        outcome is Interrupted ==> r.reasoning_path@.len() == 0 && r.tools_used@.len() == 0,
{
    match outcome {
        QueryOutcome::Completed { final_answer, turns, tools_called } => {
            let answer = match final_answer {
                Some(a) => a,
                None => "No answer could be generated.".to_owned(),
            };
            let mut path: Vec<String> = Vec::new();
            let mut k: usize = 0;
            while k < turns.len()
                invariant
                    k <= turns@.len(),
                    path@.map_values(|p: String| p@) == reasoning_path(turns@.take(k as int)),
                decreases turns@.len() - k,
            {
                proof {
                    assert(turns@.take(k + 1).drop_last() =~= turns@.take(k as int));
                    assert(turns@.take(k + 1).last() == turns@[k as int]);
                }
                if turns[k].tool_calls.len() > 0 {
                    let line = turn_string(&turns[k].tool_calls);
                    path.push(line);
                    proof {
                        assert(path@.map_values(|p: String| p@) =~= path@.drop_last().map_values(
                            |p: String| p@,
                        ).push(line@));
                    }
                }
                k = k + 1;
            }
            assert(turns@.take(turns@.len() as int) =~= turns@);
            RagResponse { answer, reasoning_path: path, tools_used: tools_called }
        },
        QueryOutcome::Interrupted { reason } => {
            let mut answer = "Query interrupted: ".to_owned();
            answer.append(reason.as_str());
            RagResponse { answer, reasoning_path: Vec::new(), tools_used: Vec::new() }
        },
    }
}

/// A fresh conversation id for a question: `query-` and a random version 4
/// UUID.
pub fn new_thread_id() -> (s: String)
    ensures
        exists|id: u128|
            s@ == "query-"@ + uuid_text(id) && (id >> 76u128) & 0xf == 4 && (id >> 62u128) & 0x3
                == 2,
{
    let id = new_v4();
    let mut s = "query-".to_owned();
    push_uuid(&mut s, id);
    s
}

} // verus!
