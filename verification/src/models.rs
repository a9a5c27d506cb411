//! The records the application shows: index directories, documents, chunks,
//! failures, task progress, history, favorites and the question-answering and
//! semantic-model views.
use vstd::prelude::*;

verus! {

/// An index directory and its counts.
#[derive(Debug, Clone)]
pub struct IndexDirView {
    pub path: String,
    pub enabled: bool,
    pub docs: usize,
    pub chunks: usize,
    pub status: String,
    pub is_explicit: bool,
}

/// An indexed document.
#[derive(Debug, Clone)]
pub struct DocumentView {
    pub id: String,
    pub dir_path: String,
    pub path: String,
    pub file_name: String,
    pub ext: String,
    pub modified: String,
    pub chunks: usize,
}

/// One block of a document preview.
#[derive(Debug, Clone)]
pub struct PreviewBlockView {
    pub block_index: usize,
    pub block_type: String,
    pub text: String,
    pub heading: String,
    pub level: Option<u32>,
    pub page: Option<u32>,
    pub language: String,
    pub markdown: String,
    pub html: String,
    pub asset_path: String,
    pub alt_text: String,
    pub caption: String,
    pub ocr_text: String,
}

/// A chunk of a document, with the preview blocks it covers.
#[derive(Debug, Clone)]
pub struct ChunkView {
    pub id: String,
    pub heading: String,
    pub title_path: String,
    pub snippet: String,
    pub paragraph: Option<u32>,
    pub page: Option<u32>,
    pub preview_blocks: Vec<PreviewBlockView>,
}

/// A file that could not be indexed.
#[derive(Debug, Clone)]
pub struct FailedFileView {
    pub file: String,
    pub reason: String,
    pub category: String,
    pub code: String,
    pub retry_count: usize,
    pub last_failed_at: String,
}

/// The task the indexer is working on.
#[derive(Debug, Clone)]
pub struct CurrentTaskView {
    pub label: String,
    pub details: String,
    pub state: String,
    pub current_dir: String,
    pub current_file: String,
    pub progress: u8,
    pub scanned: usize,
    pub total: usize,
    pub succeeded: usize,
    pub failed: usize,
    pub updated: usize,
    pub skipped: usize,
    pub deleted: usize,
    pub warning: Option<String>,
    pub pause_requested: bool,
}

/// The counts of the last finished indexing run.
#[derive(Debug, Clone)]
pub struct IndexRunSummaryView {
    pub updated: usize,
    pub skipped: usize,
    pub deleted: usize,
    pub scanned: usize,
    pub total: usize,
    pub succeeded: usize,
    pub failed: usize,
    pub completed_at: String,
}

/// The state of the index as a whole.
#[derive(Debug, Clone)]
pub struct IndexStatusView {
    pub indexed_docs: usize,
    pub indexed_chunks: usize,
    pub scanned_docs: usize,
    pub failed_files: usize,
    pub current_task: Option<CurrentTaskView>,
    pub failed_items: Vec<FailedFileView>,
    pub last_run: Option<IndexRunSummaryView>,
}

/// The answer to a request to refresh one document.
#[derive(Debug, Clone)]
pub struct DocumentRefreshStartView {
    pub job_id: String,
    pub status: IndexStatusView,
}

/// A progress report of a document refresh.
#[derive(Debug, Clone)]
pub struct DocumentRefreshProgressView {
    pub job_id: String,
    pub state: String,
    pub message: String,
    pub path: String,
    pub file_name: String,
    pub parser_source: String,
    pub warning: Option<String>,
    pub status: IndexStatusView,
    pub updated_at: String,
}

/// The answer to a request to refresh an index directory or the whole index.
#[derive(Debug, Clone)]
pub struct IndexRefreshStartView {
    pub job_id: String,
    pub status: IndexStatusView,
}

/// A progress report of an index refresh.
#[derive(Debug, Clone)]
pub struct IndexRefreshProgressView {
    pub job_id: String,
    pub state: String,
    pub message: String,
    pub scope: String,
    pub path: String,
    pub status: IndexStatusView,
    pub updated_at: String,
}

/// What the parser side of the application can do on this machine.
#[derive(Debug, Clone)]
pub struct ParserRuntimeView {
    pub enabled: bool,
    pub available: bool,
    pub active: String,
    pub system_locale: String,
    pub system_language: String,
    pub tesseract_languages: Vec<String>,
    pub chinese_ocr_available: bool,
    pub chinese_ocr_warning: Option<String>,
    pub python_bin: String,
    pub script_path: String,
    pub timeout_ms: u64,
    pub office_enabled: bool,
    pub office_available: bool,
    pub office_bin: String,
    pub office_message: String,
    pub office_platform: String,
}

/// A remembered search.
#[derive(Debug, Clone)]
pub struct SearchHistoryView {
    pub query: String,
    pub normalized_query: String,
    pub hit_count: usize,
    pub last_hit_at: String,
}

/// A recently opened document.
#[derive(Debug, Clone)]
pub struct RecentDocumentView {
    pub path: String,
    pub title: String,
    pub file_name: String,
    pub ext: String,
    pub last_opened_at: String,
    pub open_count: usize,
}

/// A favorite document or search result.
#[derive(Debug, Clone)]
pub struct FavoriteView {
    pub favorite_type: String,
    pub target: String,
    pub title: String,
    pub path: String,
    pub created_at: String,
    pub updated_at: String,
}

/// How the evidence of an answer was retrieved.
#[derive(Debug, Clone)]
pub struct QaRetrievalView {
    pub search_mode: String,
    pub candidate_count: usize,
    pub selected_count: usize,
    pub semantic_enabled: bool,
    pub semantic_fallback: bool,
    pub semantic_fallback_reason: String,
}

/// A question-answering session.
#[derive(Debug, Clone)]
pub struct QaSessionView {
    pub id: String,
    pub title: String,
    pub message_count: usize,
    pub created_at: String,
    pub updated_at: String,
}

/// The outcome of testing the connection to a model.
#[derive(Debug, Clone)]
pub struct QaConnectionTestView {
    pub ok: bool,
    pub message: String,
}

/// An embedding model as the application shows it.
#[derive(Debug, Clone)]
pub struct EmbeddingModelView {
    pub id: String,
    pub name: String,
    pub provider: String,
    pub model_path: String,
    pub dimension: usize,
    pub enabled: bool,
    pub available: bool,
    pub is_default: bool,
    pub status: String,
    pub created_at: String,
    pub updated_at: String,
}

/// The state of the semantic index for a model.
#[derive(Debug, Clone)]
pub struct SemanticModelStatusView {
    pub model: EmbeddingModelView,
    pub sqlite_chunks: usize,
    pub embedded_chunks: usize,
    pub needs_rebuild: bool,
    pub last_indexed_at: String,
    pub last_error: String,
    pub index_status: String,
}

/// A progress report of a semantic index rebuild.
#[derive(Debug, Clone)]
pub struct SemanticRebuildProgressView {
    pub job_id: String,
    pub state: String,
    pub message: String,
    pub source: String,
    pub model: EmbeddingModelView,
    pub total_chunks: usize,
    pub processed_chunks: usize,
    pub embedded_chunks: usize,
    pub current_document: String,
    pub current_chunk: String,
    pub percent: u8,
    pub last_error: String,
    pub updated_at: String,
}

/// The answer to a request to rebuild the semantic index.
#[derive(Debug, Clone)]
pub struct SemanticRebuildStartView {
    pub job_id: String,
    pub status: SemanticModelStatusView,
}

/// The sample index directories shown before anything is indexed.
pub fn index_dirs() -> (r: Vec<IndexDirView>)
    ensures
        r@.len() == 2,
        r@[0].path@ == "/Users/zhaoyang/Documents"@ && r@[0].enabled && r@[0].docs == 842
            && r@[0].chunks == 13_280 && r@[0].status@ == "indexed"@ && r@[0].is_explicit,
        r@[1].path@ == "/Users/zhaoyang/Downloads"@ && r@[1].enabled && r@[1].docs == 196
            && r@[1].chunks == 2_844 && r@[1].status@ == "indexing"@ && r@[1].is_explicit,
{
    let mut v: Vec<IndexDirView> = Vec::new();
    v.push(IndexDirView {
        path: "/Users/zhaoyang/Documents".to_owned(),
        enabled: true,
        docs: 842,
        chunks: 13_280,
        status: "indexed".to_owned(),
        is_explicit: true,
    });
    v.push(IndexDirView {
        path: "/Users/zhaoyang/Downloads".to_owned(),
        enabled: true,
        docs: 196,
        chunks: 2_844,
        status: "indexing".to_owned(),
        is_explicit: true,
    });
    v
}

/// The sample failed files shown before anything is indexed.
pub fn failed_files() -> (r: Vec<FailedFileView>)
    ensures
        r@.len() == 2,
        r@[0].file@ == "扫描版合同.pdf"@ && r@[0].reason@ == "暂不支持 OCR，无法提取文本"@,
        r@[1].file@ == "old-report.doc"@ && r@[1].reason@ == "暂不支持旧版 .doc 格式"@,
        forall|i: int|
            0 <= i < 2 ==> r@[i].category@.len() == 0 && r@[i].code@.len() == 0 && r@[i].retry_count == 0
                && r@[i].last_failed_at@.len() == 0,
{
    let mut v: Vec<FailedFileView> = Vec::new();
    v.push(FailedFileView {
        file: "扫描版合同.pdf".to_owned(),
        reason: "暂不支持 OCR，无法提取文本".to_owned(),
        category: String::new(),
        code: String::new(),
        retry_count: 0,
        last_failed_at: String::new(),
    });
    v.push(FailedFileView {
        file: "old-report.doc".to_owned(),
        reason: "暂不支持旧版 .doc 格式".to_owned(),
        category: String::new(),
        code: String::new(),
        retry_count: 0,
        last_failed_at: String::new(),
    });
    v
}

} // verus!
