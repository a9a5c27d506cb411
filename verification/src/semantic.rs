//! The semantic index: embedding models, stored vectors, and how chunks are
//! grouped and named for embedding.
use vstd::prelude::*;
use crate::text::{append_chars, append_str, chars_of, concat_str, decimal, decimal_chars, string_of};

verus! {

/// An embedding model as stored.
#[derive(Debug, Clone)]
pub struct SemanticEmbeddingModelRow {
    pub id: String,
    pub name: String,
    pub provider: String,
    pub model_path: String,
    pub dimension: usize,
    pub enabled: bool,
    pub available: bool,
    pub is_default: bool,
    pub status: String,
    pub created_at: String,
    pub updated_at: String,
}

/// The state of the semantic index for the default model.
#[derive(Debug, Clone)]
pub struct SemanticModelStatusView {
    pub model: SemanticEmbeddingModelRow,
    pub sqlite_chunks: usize,
    pub embedded_chunks: usize,
    pub needs_rebuild: bool,
    pub last_indexed_at: String,
    pub last_error: String,
    pub index_status: String,
}

/// A stored embedding of a chunk.
#[derive(Debug, Clone)]
pub struct SemanticEmbeddingVector {
    pub chunk_id: String,
    pub document_id: String,
    pub model_id: String,
    pub vector_json: String,
    pub dimension: usize,
    pub text_hash: String,
    pub status: String,
    pub created_at: i64,
    pub updated_at: i64,
}

/// The id of the `index`-th chunk of a document: "document:index".
pub fn embedding_chunk_id(document_id: &str, index: usize) -> (r: String)
    ensures
        r@ == document_id@ + ":"@ + decimal(index as nat),
{
    let mut out = chars_of(document_id);
    append_str(&mut out, ":");
    append_chars(&mut out, decimal_chars(index as u64).as_slice());
    string_of(out.as_slice())
}

/// The text embedded for a chunk, before normalization: the file name,
/// heading and snippet on three lines.
pub fn embedding_source_text(file_name: &str, heading: &str, snippet: &str) -> (r: String)
    ensures
        r@ == file_name@ + "\n"@ + heading@ + "\n"@ + snippet@,
{
    let mut out = chars_of(file_name);
    append_str(&mut out, "\n");
    append_str(&mut out, heading);
    append_str(&mut out, "\n");
    append_str(&mut out, snippet);
    string_of(out.as_slice())
}

/// A chunk row of the rebuild: (document id, chunk id, file name, heading,
/// snippet).
pub open spec fn row_view(r: (String, String, String, String, String)) -> (Seq<char>, Seq<char>, Seq<char>, Seq<char>, Seq<char>) {
    (r.0@, r.1@, r.2@, r.3@, r.4@)
}

/// A chunk of the rebuild as plain values: (chunk id, file name, heading,
/// snippet).
pub type ChunkItem = (Seq<char>, Seq<char>, Seq<char>, Seq<char>);

/// The grouping after some rows: the groups handed on, and the document and
/// chunks being collected. A row of another document hands the collected
/// chunks on; while no document is being collected (its id is empty), a row
/// starts its own.
pub open spec fn grouping(rows: Seq<(Seq<char>, Seq<char>, Seq<char>, Seq<char>, Seq<char>)>) -> (Seq<(Seq<char>, Seq<ChunkItem>)>, Seq<char>, Seq<ChunkItem>)
    decreases rows.len(),
{
    if rows.len() == 0 {
        (Seq::empty(), Seq::empty(), Seq::empty())
    } else {
        let (groups, cur, items) = grouping(rows.drop_last());
        let r = rows.last();
        let item = (r.1, r.2, r.3, r.4);
        let cur1 = if cur.len() == 0 { r.0 } else { cur };
        if cur1 != r.0 {
            (groups.push((cur1, items)), r.0, seq![item])
        } else {
            (groups, cur1, items.push(item))
        }
    }
}

/// The chunks of the rows grouped by document (see `grouping`); the last
/// document collected is handed on unless its id is empty.
pub open spec fn document_groups(rows: Seq<(Seq<char>, Seq<char>, Seq<char>, Seq<char>, Seq<char>)>) -> Seq<(Seq<char>, Seq<ChunkItem>)> {
    let (groups, cur, items) = grouping(rows);
    if cur.len() == 0 { groups } else { groups.push((cur, items)) }
}

/// One document's chunks for embedding.
#[derive(Debug, Clone)]
pub struct DocumentChunks {
    pub document_id: String,
    pub chunks: Vec<(String, String, String, String)>,
}

/// The plain view of chunks.
pub open spec fn items_view(v: Seq<(String, String, String, String)>) -> Seq<ChunkItem> {
    v.map_values(|c: (String, String, String, String)| (c.0@, c.1@, c.2@, c.3@))
}

/// The plain view of a group.
pub open spec fn group_view(g: DocumentChunks) -> (Seq<char>, Seq<ChunkItem>) {
    (g.document_id@, items_view(g.chunks@))
}

fn copy_item(r: &(String, String, String, String, String)) -> (c: (String, String, String, String))
    ensures
        (c.0@, c.1@, c.2@, c.3@) == (r.1@, r.2@, r.3@, r.4@),
{
    (r.1.clone(), r.2.clone(), r.3.clone(), r.4.clone())
}

/// Groups the rows of the rebuild by document (see `document_groups`).
pub fn group_rows_by_document(rows: &Vec<(String, String, String, String, String)>) -> (r: Vec<DocumentChunks>)
    ensures
        r@.map_values(|g: DocumentChunks| group_view(g)) == document_groups(
            rows@.map_values(|x: (String, String, String, String, String)| row_view(x)),
        ),
{
    let ghost rv = rows@.map_values(|x: (String, String, String, String, String)| row_view(x));
    let mut groups: Vec<DocumentChunks> = Vec::new();
    let mut cur = String::new();
    let mut items: Vec<(String, String, String, String)> = Vec::new();
    let mut i: usize = 0;
    while i < rows.len()
        invariant
            i <= rows@.len(),
            rv == rows@.map_values(|x: (String, String, String, String, String)| row_view(x)),
            grouping(rv.take(i as int)) == (groups@.map_values(|g: DocumentChunks| group_view(g)), cur@, items_view(items@)),
        decreases rows@.len() - i,
    {
        proof {
            assert(rv.take(i + 1).drop_last() =~= rv.take(i as int));
            assert(rv.take(i + 1).last() == row_view(rows@[i as int]));
        }
        let item = copy_item(&rows[i]);
        let ghost iv = (item.0@, item.1@, item.2@, item.3@);
        if cur.as_str().is_empty() {
            cur = rows[i].0.clone();
        }
        if !(cur == rows[i].0) {
            let ghost before = groups@.map_values(|g: DocumentChunks| group_view(g));
            let done = DocumentChunks { document_id: cur, chunks: items };
            let ghost dv = group_view(done);
            groups.push(done);
            assert(groups@.map_values(|g: DocumentChunks| group_view(g)) =~= before.push(dv));
            cur = rows[i].0.clone();
            items = Vec::new();
            items.push(item);
            assert(items_view(items@) =~= seq![iv]);
        } else {
            let ghost ib = items_view(items@);
            items.push(item);
            assert(items_view(items@) =~= ib.push(iv));
        }
        i += 1;
    }
    assert(rv.take(i as int) =~= rv);
    if !cur.as_str().is_empty() {
        let ghost before = groups@.map_values(|g: DocumentChunks| group_view(g));
        let done = DocumentChunks { document_id: cur, chunks: items };
        let ghost dv = group_view(done);
        groups.push(done);
        assert(groups@.map_values(|g: DocumentChunks| group_view(g)) =~= before.push(dv));
    }
    groups
}

/// The refusal when no embedding model exists.
pub fn no_model_error() -> (r: String)
    ensures
        r@ == "没有可用的 embedding 模型"@,
{
    "没有可用的 embedding 模型".to_owned()
}

/// The refusal of an unknown embedding model.
pub fn unknown_model_error(model_id: &str) -> (r: String)
    ensures
        r@ == "找不到 embedding 模型: "@ + model_id@,
{
    concat_str("找不到 embedding 模型: ", model_id)
}

} // verus!
