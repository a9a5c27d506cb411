//! Topic collections and tags: how names, colours and kinds are cleaned
//! before they are stored, and how stored rows are shown.
use vstd::prelude::*;
use crate::clock::{format_unix_ts, unix_ts_label};
use crate::text::{
    append_chars, append_str, chars_of, collapse_ws, collapse_ws_chars, decimal, decimal_chars, join,
    lower_chars, lowercase, str_eq, string_of, take_chars, take_prefix, trim, trim_chars, trim_str,
};

verus! {

/// A collection name: whitespace runs collapsed, at most 40 characters, a
/// default name when nothing is left.
pub open spec fn collection_name(name: Seq<char>) -> Seq<char> {
    if collapse_ws(name).len() == 0 { "新主题集合"@ } else { take_chars(collapse_ws(name), 40) }
}

/// `normalize_collection_name` (see `collection_name`).
pub fn normalize_collection_name(name: &str) -> (r: String)
    ensures
        r@ == collection_name(name@),
{
    let c = collapse_ws_chars(chars_of(name).as_slice());
    if c.len() == 0 {
        "新主题集合".to_owned()
    } else {
        string_of(take_prefix(c.as_slice(), 40).as_slice())
    }
}

fn trimmed_prefix(s: &str, n: usize) -> (r: String)
    ensures
        r@ == take_chars(trim(s@), n as nat),
{
    let t = trim_chars(chars_of(s).as_slice());
    string_of(take_prefix(t.as_slice(), n).as_slice())
}

/// `normalize_collection_description`: trimmed, at most 200 characters.
pub fn normalize_collection_description(description: &str) -> (r: String)
    ensures
        r@ == take_chars(trim(description@), 200),
{
    trimmed_prefix(description, 200)
}

/// `normalize_collection_color`: trimmed, at most 32 characters.
pub fn normalize_collection_color(color: &str) -> (r: String)
    ensures
        r@ == take_chars(trim(color@), 32),
{
    trimmed_prefix(color, 32)
}

/// `normalize_tag_color`: trimmed, at most 32 characters.
pub fn normalize_tag_color(color: &str) -> (r: String)
    ensures
        r@ == take_chars(trim(color@), 32),
{
    trimmed_prefix(color, 32)
}

/// `normalize_tag_name`: whitespace runs collapsed, at most 40 characters.
pub fn normalize_tag_name(name: &str) -> (r: String)
    ensures
        r@ == take_chars(collapse_ws(name@), 40),
{
    let c = collapse_ws_chars(chars_of(name).as_slice());
    string_of(take_prefix(c.as_slice(), 40).as_slice())
}

/// A kind as given, trimmed and lowercased.
pub open spec fn kind_key(kind: Seq<char>) -> Seq<char> {
    lowercase(trim(kind))
}

fn kind_key_exec(kind: &str) -> (r: String)
    ensures
        r@ == kind_key(kind@),
{
    string_of(lower_chars(trim_chars(chars_of(kind).as_slice()).as_slice()).as_slice())
}

/// The kind of a collection item: document, chunk, search or QA source;
/// anything else is a chunk.
pub open spec fn collection_item_type(kind: Seq<char>) -> Seq<char> {
    let k = kind_key(kind);
    if k == "document"@ || k == "chunk"@ || k == "search"@ || k == "qa_source"@ { k } else { "chunk"@ }
}

/// `normalize_collection_item_type` (see `collection_item_type`).
pub fn normalize_collection_item_type(item_type: &str) -> (r: String)
    ensures
        r@ == collection_item_type(item_type@),
{
    let k = kind_key_exec(item_type);
    if str_eq(k.as_str(), "document") || str_eq(k.as_str(), "chunk") || str_eq(k.as_str(), "search")
        || str_eq(k.as_str(), "qa_source") {
        k
    } else {
        "chunk".to_owned()
    }
}

/// The kind of a recently viewed target: document, chunk, collection or QA
/// session; anything else is none (empty).
pub open spec fn recent_view_type(kind: Seq<char>) -> Seq<char> {
    let k = kind_key(kind);
    if k == "document"@ || k == "chunk"@ || k == "collection"@ || k == "qa_session"@ { k } else { Seq::empty() }
}

/// `normalize_recent_view_target_type` (see `recent_view_type`).
pub fn normalize_recent_view_target_type(target_type: &str) -> (r: String)
    ensures
        r@ == recent_view_type(target_type@),
{
    let k = kind_key_exec(target_type);
    if str_eq(k.as_str(), "document") || str_eq(k.as_str(), "chunk") || str_eq(k.as_str(), "collection")
        || str_eq(k.as_str(), "qa_session") {
        k
    } else {
        String::new()
    }
}

/// The kind of a tagged target: document, chunk, collection or collection
/// item; anything else is none (empty).
pub open spec fn tag_target_type(kind: Seq<char>) -> Seq<char> {
    let k = kind_key(kind);
    if k == "document"@ || k == "chunk"@ || k == "collection"@ || k == "collection_item"@ { k } else { Seq::empty() }
}

/// `normalize_tag_target_type` (see `tag_target_type`).
pub fn normalize_tag_target_type(target_type: &str) -> (r: String)
    ensures
        r@ == tag_target_type(target_type@),
{
    let k = kind_key_exec(target_type);
    if str_eq(k.as_str(), "document") || str_eq(k.as_str(), "chunk") || str_eq(k.as_str(), "collection")
        || str_eq(k.as_str(), "collection_item") {
        k
    } else {
        String::new()
    }
}

/// What is added to a collection.
#[derive(Debug, Clone)]
pub struct CollectionItemInput {
    pub item_type: String,
    pub document_id: Option<String>,
    pub chunk_id: Option<String>,
    pub qa_session_id: Option<String>,
    pub qa_message_id: Option<String>,
    pub path: Option<String>,
    pub title_path: Option<String>,
}

/// An optional text, empty when absent.
pub open spec fn or_empty(o: Option<String>) -> Seq<char> {
    match o {
        Some(s) => s@,
        None => Seq::empty(),
    }
}

/// What identifies the target of a collection item: its kind and ids,
/// joined with `|`.
pub open spec fn item_signature(item: CollectionItemInput) -> Seq<char> {
    join(
        seq![
            collection_item_type(item.item_type@),
            or_empty(item.document_id),
            or_empty(item.chunk_id),
            or_empty(item.qa_session_id),
            or_empty(item.qa_message_id),
            or_empty(item.path),
            or_empty(item.title_path),
        ],
        "|"@,
    )
}

fn or_empty_chars(o: &Option<String>) -> (r: Vec<char>)
    ensures
        r@ == or_empty(*o),
{
    match o {
        Some(s) => chars_of(s.as_str()),
        None => Vec::new(),
    }
}

/// `collection_item_target_signature` (see `item_signature`).
pub fn collection_item_target_signature(item: &CollectionItemInput) -> (r: String)
    ensures
        r@ == item_signature(*item),
{
    let mut parts: Vec<Vec<char>> = Vec::new();
    parts.push(chars_of(normalize_collection_item_type(item.item_type.as_str()).as_str()));
    parts.push(or_empty_chars(&item.document_id));
    parts.push(or_empty_chars(&item.chunk_id));
    parts.push(or_empty_chars(&item.qa_session_id));
    parts.push(or_empty_chars(&item.qa_message_id));
    parts.push(or_empty_chars(&item.path));
    parts.push(or_empty_chars(&item.title_path));
    assert(parts@.map_values(|p: Vec<char>| p@) =~= seq![
        collection_item_type(item.item_type@),
        or_empty(item.document_id),
        or_empty(item.chunk_id),
        or_empty(item.qa_session_id),
        or_empty(item.qa_message_id),
        or_empty(item.path),
        or_empty(item.title_path),
    ]);
    let sep = chars_of("|");
    string_of(crate::text::join_chars(&parts, sep.as_slice()).as_slice())
}

/// A stored collection.
#[derive(Debug, Clone)]
pub struct CollectionRow {
    pub id: String,
    pub name: String,
    pub description: String,
    pub color: String,
    pub sort_order: i64,
    pub item_count: i64,
    pub created_at: i64,
    pub updated_at: i64,
}

/// A collection as the application shows it.
#[derive(Debug, Clone)]
pub struct CollectionView {
    pub id: String,
    pub name: String,
    pub description: String,
    pub color: String,
    pub sort_order: i64,
    pub item_count: usize,
    pub created_at: String,
    pub updated_at: String,
}

/// A count read from the database: negative counts read as zero.
pub open spec fn count_of(n: i64) -> usize {
    (if n < 0 { 0 } else { n }) as usize
}

/// `collection_row_to_view`.
pub fn collection_row_to_view(row: CollectionRow) -> (r: CollectionView)
    ensures
        r.id@ == row.id@ && r.name@ == row.name@ && r.description@ == row.description@ && r.color@ == row.color@,
        r.sort_order == row.sort_order && r.item_count == count_of(row.item_count),
        r.created_at@ == unix_ts_label(row.created_at) && r.updated_at@ == unix_ts_label(row.updated_at),
{
    CollectionView {
        id: row.id,
        name: row.name,
        description: row.description,
        color: row.color,
        sort_order: row.sort_order,
        item_count: (if row.item_count < 0 { 0 } else { row.item_count }) as usize,
        created_at: format_unix_ts(row.created_at),
        updated_at: format_unix_ts(row.updated_at),
    }
}

/// A stored tag.
#[derive(Debug, Clone)]
pub struct TagRow {
    pub id: String,
    pub name: String,
    pub color: String,
    pub target_count: i64,
    pub created_at: i64,
    pub updated_at: i64,
}

/// A tag as the application shows it.
#[derive(Debug, Clone)]
pub struct TagView {
    pub id: String,
    pub name: String,
    pub color: String,
    pub target_count: usize,
    pub created_at: String,
    pub updated_at: String,
}

/// `tag_row_to_view`.
pub fn tag_row_to_view(row: TagRow) -> (r: TagView)
    ensures
        r.id@ == row.id@ && r.name@ == row.name@ && r.color@ == row.color@,
        r.target_count == count_of(row.target_count),
        r.created_at@ == unix_ts_label(row.created_at) && r.updated_at@ == unix_ts_label(row.updated_at),
{
    TagView {
        id: row.id,
        name: row.name,
        color: row.color,
        target_count: (if row.target_count < 0 { 0 } else { row.target_count }) as usize,
        created_at: format_unix_ts(row.created_at),
        updated_at: format_unix_ts(row.updated_at),
    }
}

/// A stored collection item.
#[derive(Debug, Clone)]
pub struct CollectionItemRow {
    pub id: String,
    pub collection_id: String,
    pub item_type: String,
    pub document_id: String,
    pub chunk_id: String,
    pub qa_session_id: String,
    pub qa_message_id: String,
    pub title: String,
    pub path: String,
    pub title_path: String,
    pub snippet: String,
    pub note: String,
    pub source_meta_json: String,
    pub sort_order: i64,
    pub created_at: i64,
    pub updated_at: i64,
}

/// A collection item as the application shows it.
#[derive(Debug, Clone)]
pub struct CollectionItemView {
    pub id: String,
    pub collection_id: String,
    pub item_type: String,
    pub document_id: String,
    pub chunk_id: String,
    pub qa_session_id: String,
    pub qa_message_id: String,
    pub title: String,
    pub path: String,
    pub title_path: String,
    pub snippet: String,
    pub note: String,
    pub source_meta_json: String,
    pub sort_order: i64,
    pub created_at: String,
    pub updated_at: String,
}

/// `collection_item_row_to_view`: the fields as stored, timestamps as text.
pub fn collection_item_row_to_view(row: CollectionItemRow) -> (r: CollectionItemView)
    ensures
        r.id@ == row.id@ && r.collection_id@ == row.collection_id@ && r.item_type@ == row.item_type@,
        r.document_id@ == row.document_id@ && r.chunk_id@ == row.chunk_id@ && r.qa_session_id@ == row.qa_session_id@,
        r.qa_message_id@ == row.qa_message_id@ && r.title@ == row.title@ && r.path@ == row.path@,
        r.title_path@ == row.title_path@ && r.snippet@ == row.snippet@ && r.note@ == row.note@,
        r.source_meta_json@ == row.source_meta_json@ && r.sort_order == row.sort_order,
        r.created_at@ == unix_ts_label(row.created_at) && r.updated_at@ == unix_ts_label(row.updated_at),
{
    CollectionItemView {
        id: row.id,
        collection_id: row.collection_id,
        item_type: row.item_type,
        document_id: row.document_id,
        chunk_id: row.chunk_id,
        qa_session_id: row.qa_session_id,
        qa_message_id: row.qa_message_id,
        title: row.title,
        path: row.path,
        title_path: row.title_path,
        snippet: row.snippet,
        note: row.note,
        source_meta_json: row.source_meta_json,
        sort_order: row.sort_order,
        created_at: format_unix_ts(row.created_at),
        updated_at: format_unix_ts(row.updated_at),
    }
}

/// A trimmed field as a labelled line, or nothing when it is blank.
pub open spec fn field_line(label: Seq<char>, value: Seq<char>) -> Seq<char> {
    if trim(value).len() > 0 { label + trim(value) + "\n"@ } else { Seq::empty() }
}

/// The head of an item's Markdown: its number and title, and its kind.
pub open spec fn item_head(index: nat, title: Seq<char>, item_type: Seq<char>) -> Seq<char> {
    "## "@ + decimal(index + 1) + ". "@ + trim(title) + "\n\n"@ + "- 类型："@ + item_type + "\n"@
}

/// The excerpt block of an item, when its snippet is not blank.
pub open spec fn excerpt_block(snippet: Seq<char>) -> Seq<char> {
    if trim(snippet).len() > 0 { "\n摘录：\n\n"@ + "> "@ + trim(snippet) + "\n"@ } else { Seq::empty() }
}

/// The note block of an item, when its note is not blank.
pub open spec fn note_block(note: Seq<char>) -> Seq<char> {
    if trim(note).len() > 0 { "\n备注：\n\n"@ + trim(note) + "\n"@ } else { Seq::empty() }
}

/// The Markdown of the `index`-th item (from zero) of a collection: its
/// numbered title, its kind, its path and location when given, the excerpt
/// and the note when not blank, and a blank line.
pub open spec fn item_markdown(index: nat, item: CollectionItemView) -> Seq<char> {
    item_head(index, item.title@, item.item_type@) + field_line("- 路径："@, item.path@)
        + field_line("- 定位："@, item.title_path@) + excerpt_block(item.snippet@) + note_block(item.note@) + "\n"@
}

/// The Markdown of the items, in order.
pub open spec fn items_markdown(items: Seq<CollectionItemView>) -> Seq<char>
    decreases items.len(),
{
    if items.len() == 0 {
        Seq::empty()
    } else {
        items_markdown(items.drop_last()) + item_markdown((items.len() - 1) as nat, items.last())
    }
}

/// The Markdown export of a collection: its name as the title, its
/// description (when not blank) as a quote, then each item.
pub open spec fn collection_markdown_of(name: Seq<char>, description: Seq<char>, items: Seq<CollectionItemView>) -> Seq<char> {
    "# "@ + name + "\n\n"@
        + (if trim(description).len() > 0 { "> "@ + trim(description) + "\n\n"@ } else { Seq::empty() })
        + items_markdown(items)
}

fn push_field_line(out: &mut Vec<char>, label: &str, value: &str)
    ensures
        final(out)@ == old(out)@ + field_line(label@, value@),
{
    let t = trim_chars(chars_of(value).as_slice());
    if t.len() > 0 {
        append_str(out, label);
        append_chars(out, t.as_slice());
        append_str(out, "\n");
    } else {
        assert(old(out)@ + Seq::<char>::empty() =~= old(out)@);
    }
}

fn push_item_head(out: &mut Vec<char>, index: usize, title: &str, item_type: &str)
    requires
        index < u64::MAX,
    ensures
        final(out)@ == old(out)@ + item_head(index as nat, title@, item_type@),
{
    let ghost start = out@;
    append_str(out, "## ");
    append_chars(out, decimal_chars((index as u64) + 1).as_slice());
    append_str(out, ". ");
    append_chars(out, trim_chars(chars_of(title).as_slice()).as_slice());
    append_str(out, "\n\n");
    append_str(out, "- 类型：");
    append_str(out, item_type);
    append_str(out, "\n");
    assert(out@ =~= start + item_head(index as nat, title@, item_type@));
}

fn push_excerpt(out: &mut Vec<char>, snippet: &str)
    ensures
        final(out)@ == old(out)@ + excerpt_block(snippet@),
{
    let ghost start = out@;
    let t = trim_chars(chars_of(snippet).as_slice());
    if t.len() > 0 {
        append_str(out, "\n摘录：\n\n");
        append_str(out, "> ");
        append_chars(out, t.as_slice());
        append_str(out, "\n");
        assert(out@ =~= start + excerpt_block(snippet@));
    } else {
        assert(start + Seq::<char>::empty() =~= start);
    }
}

fn push_note(out: &mut Vec<char>, note: &str)
    ensures
        final(out)@ == old(out)@ + note_block(note@),
{
    let ghost start = out@;
    let t = trim_chars(chars_of(note).as_slice());
    if t.len() > 0 {
        append_str(out, "\n备注：\n\n");
        append_chars(out, t.as_slice());
        append_str(out, "\n");
        assert(out@ =~= start + note_block(note@));
    } else {
        assert(start + Seq::<char>::empty() =~= start);
    }
}

fn push_item_markdown(out: &mut Vec<char>, index: usize, item: &CollectionItemView)
    requires
        index < u64::MAX,
    ensures
        final(out)@ == old(out)@ + item_markdown(index as nat, *item),
{
    let ghost start = out@;
    push_item_head(out, index, item.title.as_str(), item.item_type.as_str());
    push_field_line(out, "- 路径：", item.path.as_str());
    push_field_line(out, "- 定位：", item.title_path.as_str());
    push_excerpt(out, item.snippet.as_str());
    push_note(out, item.note.as_str());
    append_str(out, "\n");
    assert(out@ =~= start + item_markdown(index as nat, *item));
}

/// The Markdown export of a collection from its name, description and items (see
/// `collection_markdown_of`).
pub fn collection_markdown(name: &str, description: &str, items: &Vec<CollectionItemView>) -> (r: String)
    requires
        items@.len() < u64::MAX,
    ensures
        r@ == collection_markdown_of(name@, description@, items@),
{
    let mut out = chars_of("# ");
    append_str(&mut out, name);
    append_str(&mut out, "\n\n");
    let d = trim_chars(chars_of(description).as_slice());
    if d.len() > 0 {
        append_str(&mut out, "> ");
        append_chars(&mut out, d.as_slice());
        append_str(&mut out, "\n\n");
    }
    let ghost head = out@;
    assert(head =~= "# "@ + name@ + "\n\n"@ + (if trim(description@).len() > 0 { "> "@ + trim(description@) + "\n\n"@ } else { Seq::empty() }));
    let mut i: usize = 0;
    while i < items.len()
        invariant
            i <= items@.len() < u64::MAX,
            out@ == head + items_markdown(items@.take(i as int)),
        decreases items@.len() - i,
    {
        proof {
            assert(items@.take(i + 1).drop_last() =~= items@.take(i as int));
            assert(items@.take(i + 1).last() == items@[i as int]);
        }
        push_item_markdown(&mut out, i, &items[i]);
        i += 1;
        proof {
            assert(head + items_markdown(items@.take(i as int)) =~= head + items_markdown(items@.take(i - 1)) + item_markdown((i - 1) as nat, items@[i - 1]));
        }
    }
    assert(items@.take(items@.len() as int) =~= items@);
    string_of(out.as_slice())
}

/// Where a Markdown export is written: the trimmed path, which may not be
/// empty.
pub fn check_export_path(path: &str) -> (r: Result<String, String>)
    ensures
        trim(path@).len() == 0 ==> (r matches Err(e) && e@ == "导出路径不能为空"@),
        trim(path@).len() > 0 ==> (r matches Ok(p) && p@ == trim(path@)),
{
    let p = trim_str(path);
    if p.as_str().is_empty() {
        Err("导出路径不能为空".to_owned())
    } else {
        Ok(p)
    }
}

} // verus!
