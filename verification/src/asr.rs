//! Local speech recognition for push-to-talk voice input: the static model
//! catalog, the engine configuration, the on-disk model layout, and the text
//! clean-up applied before a transcription reaches a terminal.
use vstd::prelude::*;
use crate::text::{chars_of, push, push_str, str_eq, to_string};
use crate::platform::{trim, trimmed};
use crate::paths::{data_dir, join_path, lemma_join_then_append, path_join};
use crate::hashing::{fed, lower_hex, sha256, to_lower_hex, Sha256Stream};

verus! {

#[verifier::external_type_specification]
#[verifier::external_body]
pub struct ExPathBuf(std::path::PathBuf);

// ------------------------------------------------------------------
// Catalog
// ------------------------------------------------------------------

/// Stable model identifier; the wire form mirrors the upstream whisper.cpp
/// file names.
#[derive(Debug, Clone, PartialEq, Eq, Hash)]
pub struct ModelId(pub String);

impl ModelId {
    pub fn as_str(&self) -> (r: &str)
        ensures
            r@ == self.0@,
    {
        self.0.as_str()
    }
}

/// Language coverage of a model.
#[derive(Debug, Clone, Copy, PartialEq, Eq)]
pub enum ModelLanguages {
    /// Multilingual checkpoints (about a hundred languages, Korean among them).
    Multilingual,
    /// English-only checkpoints.
    English,
}

/// One catalog row.
#[derive(Debug, Clone, PartialEq, Eq)]
pub struct ModelEntry {
    pub id: ModelId,
    pub display: String,
    pub url: String,
    /// Lower-case hex SHA-256 of the expected payload; empty while the
    /// digest is still to be filled in (verification is then skipped).
    pub sha256: String,
    pub size_bytes: u64,
    pub languages: ModelLanguages,
    /// Short human hint shown in the picker.
    pub recommendation: String,
}

pub struct ModelEntryView {
    pub id: Seq<char>,
    pub display: Seq<char>,
    pub url: Seq<char>,
    pub sha256: Seq<char>,
    pub size_bytes: u64,
    pub languages: ModelLanguages,
    pub recommendation: Seq<char>,
}

impl View for ModelEntry {
    type V = ModelEntryView;

    open spec fn view(&self) -> ModelEntryView {
        ModelEntryView {
            id: self.id.0@,
            display: self.display@,
            url: self.url@,
            sha256: self.sha256@,
            size_bytes: self.size_bytes,
            languages: self.languages,
            recommendation: self.recommendation@,
        }
    }
}

/// `<id>.bin`, the file name a model is stored under.
pub open spec fn model_filename(id: Seq<char>) -> Seq<char> {
    id + ".bin"@
}

impl ModelEntry {
    pub fn filename(&self) -> (r: String)
        ensures
            r@ == model_filename(self.id.0@),
    {
        let mut s = to_string(self.id.as_str());
        push_str(&mut s, ".bin");
        s
    }
}

pub open spec fn catalog_row(
    id: Seq<char>,
    display: Seq<char>,
    url: Seq<char>,
    size_bytes: u64,
    recommendation: Seq<char>,
) -> ModelEntryView {
    ModelEntryView {
        id,
        display,
        url,
        sha256: Seq::empty(),
        size_bytes,
        languages: ModelLanguages::Multilingual,
        recommendation,
    }
}

/// The frozen catalog.
pub open spec fn catalog() -> Seq<ModelEntryView> {
    seq![
        catalog_row(
            "ggml-tiny-q5_1"@,
            "Whisper Tiny (저사양, 다국어)"@,
            "https://huggingface.co/ggerganov/whisper.cpp/resolve/main/ggml-tiny-q5_1.bin"@,
            31_000_000,
            "저사양"@,
        ),
        catalog_row(
            "ggml-base-q5_1"@,
            "Whisper Base (균형, 다국어)"@,
            "https://huggingface.co/ggerganov/whisper.cpp/resolve/main/ggml-base-q5_1.bin"@,
            58_000_000,
            "균형"@,
        ),
        catalog_row(
            "ggml-small-q5_1"@,
            "Whisper Small (권장, 다국어)"@,
            "https://huggingface.co/ggerganov/whisper.cpp/resolve/main/ggml-small-q5_1.bin"@,
            190_000_000,
            "권장"@,
        ),
        catalog_row(
            "ggml-medium-q5_0"@,
            "Whisper Medium (고품질, 다국어)"@,
            "https://huggingface.co/ggerganov/whisper.cpp/resolve/main/ggml-medium-q5_0.bin"@,
            539_000_000,
            "고품질"@,
        ),
    ]
}

pub open spec fn entries_view(v: Seq<ModelEntry>) -> Seq<ModelEntryView> {
    v.map_values(|e: ModelEntry| e@)
}

fn row(id: &str, display: &str, url: &str, size_bytes: u64, recommendation: &str) -> (e: ModelEntry)
    ensures
        e@ == catalog_row(id@, display@, url@, size_bytes, recommendation@),
{
    ModelEntry {
        id: ModelId(to_string(id)),
        display: to_string(display),
        url: to_string(url),
        sha256: String::new(),
        size_bytes,
        languages: ModelLanguages::Multilingual,
        recommendation: to_string(recommendation),
    }
}

/// The frozen catalog of supported models.
pub fn entries() -> (r: Vec<ModelEntry>)
    ensures
        entries_view(r@) == catalog(),
{
    let mut v: Vec<ModelEntry> = Vec::new();
    v.push(
        row(
            "ggml-tiny-q5_1",
            "Whisper Tiny (저사양, 다국어)",
            "https://huggingface.co/ggerganov/whisper.cpp/resolve/main/ggml-tiny-q5_1.bin",
            31_000_000,
            "저사양",
        ),
    );
    v.push(
        row(
            "ggml-base-q5_1",
            "Whisper Base (균형, 다국어)",
            "https://huggingface.co/ggerganov/whisper.cpp/resolve/main/ggml-base-q5_1.bin",
            58_000_000,
            "균형",
        ),
    );
    v.push(
        row(
            "ggml-small-q5_1",
            "Whisper Small (권장, 다국어)",
            "https://huggingface.co/ggerganov/whisper.cpp/resolve/main/ggml-small-q5_1.bin",
            190_000_000,
            "권장",
        ),
    );
    v.push(
        row(
            "ggml-medium-q5_0",
            "Whisper Medium (고품질, 다국어)",
            "https://huggingface.co/ggerganov/whisper.cpp/resolve/main/ggml-medium-q5_0.bin",
            539_000_000,
            "고품질",
        ),
    );
    assert(entries_view(v@) =~= catalog());
    v
}

/// The first row of `rows` whose id is `id`.
pub open spec fn find_in(rows: Seq<ModelEntryView>, id: Seq<char>) -> Option<ModelEntryView>
    decreases rows.len(),
{
    if rows.len() == 0 {
        None
    } else if rows[0].id == id {
        Some(rows[0])
    } else {
        find_in(rows.skip(1), id)
    }
}

/// Locate a catalog entry by id; `None` when no entry has it.
pub fn find(id: &ModelId) -> (r: Option<ModelEntry>)
    ensures
        match r {
            Some(e) => find_in(catalog(), id.0@) == Some(e@),
            None => find_in(catalog(), id.0@) is None,
        },
{
    let rows = entries();
    let ghost all = entries_view(rows@);
    let mut i: usize = 0;
    assert(all.skip(0) =~= all);
    while i < rows.len()
        invariant
            i <= rows@.len(),
            all == entries_view(rows@),
            all == catalog(),
            find_in(all.skip(i as int), id.0@) == find_in(all, id.0@),
        decreases rows@.len() - i,
    {
        let ghost rest = all.skip(i as int);
        assert(rest[0] == rows@[i as int]@);
        if str_eq(rows[i].id.as_str(), id.as_str()) {
            return Some(rows[i].clone_entry());
        }
        assert(rest.skip(1) =~= all.skip(i + 1));
        i = i + 1;
    }
    assert(all.skip(i as int) =~= Seq::<ModelEntryView>::empty());
    None
}

impl ModelEntry {
    /// A field-by-field copy.
    pub fn clone_entry(&self) -> (r: ModelEntry)
        ensures
            r@ == self@,
    {
        ModelEntry {
            id: ModelId(to_string(self.id.as_str())),
            display: to_string(self.display.as_str()),
            url: to_string(self.url.as_str()),
            sha256: to_string(self.sha256.as_str()),
            size_bytes: self.size_bytes,
            languages: self.languages,
            recommendation: to_string(self.recommendation.as_str()),
        }
    }
}

/// The recommended default when no choice has been persisted yet: the
/// small q5 model, or the first entry when that is missing.
pub fn recommended_default() -> (r: ModelEntry)
    ensures
        r@ == recommended_view(),
{
    match find(&ModelId(to_string("ggml-small-q5_1"))) {
        Some(e) => e,
        None => {
            let rows = entries();
            assert(rows@[0]@ == catalog()[0]);
            rows[0].clone_entry()
        },
    }
}

/// What `recommended_default` gives, as a catalog row.
pub open spec fn recommended_view() -> ModelEntryView {
    match find_in(catalog(), "ggml-small-q5_1"@) {
        Some(e) => e,
        None => catalog()[0],
    }
}

/// A row found by id is a row of the table and carries that id.
pub proof fn lemma_find_in_is_row(rows: Seq<ModelEntryView>, id: Seq<char>)
    ensures
        find_in(rows, id) matches Some(e) ==> e.id == id && rows.contains(e),
    decreases rows.len(),
{
    if rows.len() > 0 && rows[0].id != id {
        lemma_find_in_is_row(rows.skip(1), id);
        if let Some(e) = find_in(rows.skip(1), id) {
            let k = choose|k: int| 0 <= k < rows.skip(1).len() && rows.skip(1)[k] == e;
            assert(rows[k + 1] == e);
        }
    } else if rows.len() > 0 {
        assert(rows[0] == rows[0]);
    }
}

/// No two catalog rows share an id.
pub proof fn lemma_catalog_ids_unique()
    ensures
        forall|i: int, j: int|
            0 <= i < j < catalog().len() ==> #[trigger] catalog()[i].id != #[trigger] catalog()[j].id,
{
    reveal_strlit("ggml-tiny-q5_1");
    reveal_strlit("ggml-base-q5_1");
    reveal_strlit("ggml-small-q5_1");
    reveal_strlit("ggml-medium-q5_0");
    let c = catalog();
    assert(c[0].id[5] != c[1].id[5]);
    assert(c[0].id[5] != c[2].id[5]);
    assert(c[0].id.len() != c[3].id.len());
    assert(c[1].id[5] != c[2].id[5]);
    assert(c[1].id.len() != c[3].id.len());
    assert(c[2].id.len() != c[3].id.len());
}

/// Every catalog URL points at `https://huggingface.co/`.
pub proof fn lemma_catalog_urls_are_huggingface()
    ensures
        forall|i: int|
            0 <= i < catalog().len() ==> (#[trigger] catalog()[i]).url.take(23) == "https://huggingface.co/"@,
{
    reveal_strlit("https://huggingface.co/");
    reveal_strlit("https://huggingface.co/ggerganov/whisper.cpp/resolve/main/ggml-tiny-q5_1.bin");
    reveal_strlit("https://huggingface.co/ggerganov/whisper.cpp/resolve/main/ggml-base-q5_1.bin");
    reveal_strlit("https://huggingface.co/ggerganov/whisper.cpp/resolve/main/ggml-small-q5_1.bin");
    reveal_strlit("https://huggingface.co/ggerganov/whisper.cpp/resolve/main/ggml-medium-q5_0.bin");
    let c = catalog();
    assert(c[0].url.take(23) =~= "https://huggingface.co/"@);
    assert(c[1].url.take(23) =~= "https://huggingface.co/"@);
    assert(c[2].url.take(23) =~= "https://huggingface.co/"@);
    assert(c[3].url.take(23) =~= "https://huggingface.co/"@);
}

/// A lower-case hexadecimal digit.
pub open spec fn is_lower_hex_digit(c: char) -> bool {
    ('0' <= c && c <= '9') || ('a' <= c && c <= 'f')
}

/// Every catalog digest is either empty (verification skipped) or 64
/// lower-case hex digits.
pub proof fn lemma_catalog_digests_well_formed()
    ensures
        forall|i: int|
            0 <= i < catalog().len() ==> {
                let d = (#[trigger] catalog()[i]).sha256;
                d.len() == 0 || (d.len() == 64 && forall|k: int| 0 <= k < 64 ==> is_lower_hex_digit(d[k]))
            },
{
}

/// The recommended default is the catalog's small q5 model.
pub proof fn lemma_recommended_default_in_catalog()
    ensures
        recommended_view() == catalog()[2],
        catalog().contains(recommended_view()),
{
    reveal_strlit("ggml-tiny-q5_1");
    reveal_strlit("ggml-base-q5_1");
    reveal_strlit("ggml-small-q5_1");
    let c = catalog();
    let id = "ggml-small-q5_1"@;
    assert(c[0].id[5] != id[5]);
    assert(c[1].id[5] != id[5]);
    let c1 = c.skip(1);
    let c2 = c1.skip(1);
    assert(c1[0] == c[1]);
    assert(c2[0] == c[2]);
    assert(c[2].id =~= id);
    assert(find_in(c2, id) == Some(c[2]));
    assert(find_in(c1, id) == find_in(c2, id));
    assert(find_in(c, id) == find_in(c1, id));
    assert(c[2] == c[2]);
}

// ------------------------------------------------------------------
// Engine configuration
// ------------------------------------------------------------------

/// A short language code Whisper accepts (`"ko"`, `"en"`, …) or automatic
/// detection.
#[derive(Debug, Clone, PartialEq, Eq)]
pub enum Language {
    Auto,
    Code(String),
}

impl Default for Language {
    fn default() -> (r: Self)
        ensures
            r is Auto,
    {
        Language::Auto
    }
}

impl Language {
    /// The wire form: `"auto"`, or the code itself.
    pub fn whisper_code(&self) -> (r: &str)
        ensures
            r@ == (match self {
                Language::Auto => "auto"@,
                Language::Code(s) => s@,
            }),
    {
        match self {
            Language::Auto => "auto",
            Language::Code(s) => s.as_str(),
        }
    }
}

/// Inference configuration.
#[derive(Debug)]
pub struct AsrEngineConfig {
    pub model_path: std::path::PathBuf,
    pub languages: ModelLanguages,
    pub language: Language,
    /// `0` lets the engine pick a thread count.
    pub threads: i32,
    /// Translate to English instead of transcribing in `language`.
    pub translate_to_english: bool,
}

impl AsrEngineConfig {
    pub fn new(model_path: std::path::PathBuf, languages: ModelLanguages) -> (r: Self)
        ensures
            r.model_path == model_path,
            r.languages == languages,
            r.language is Auto,
            r.threads == 0,
            !r.translate_to_english,
    {
        AsrEngineConfig { model_path, languages, language: Language::Auto, threads: 0, translate_to_english: false }
    }

    pub fn with_language(self, language: Language) -> (r: Self)
        ensures
            r == (AsrEngineConfig { language, ..self }),
    {
        AsrEngineConfig { language, ..self }
    }

    /// Negative thread counts are clamped to `0`.
    pub fn with_threads(self, threads: i32) -> (r: Self)
        ensures
            r == (AsrEngineConfig { threads: if threads < 0 { 0 } else { threads }, ..self }),
    {
        let t = if threads < 0 {
            0
        } else {
            threads
        };
        AsrEngineConfig { threads: t, ..self }
    }

    pub fn with_translate(self, translate: bool) -> (r: Self)
        ensures
            r == (AsrEngineConfig { translate_to_english: translate, ..self }),
    {
        AsrEngineConfig { translate_to_english: translate, ..self }
    }
}

/// The threads a run uses on a machine of parallelism `n` when none are
/// configured: `min(8, n - 2)`, leaving two for the rest of the desktop;
/// two on a machine of two or fewer, where `n - 2` leaves none.
pub open spec fn auto_threads(n: int) -> int {
    if n <= 2 {
        2
    } else if n - 2 > 8 {
        8
    } else {
        n - 2
    }
}

/// Inference threads: the configured count when positive, else
/// `auto_threads` of the machine's parallelism (`available`, 4 when
/// unknown).
pub fn effective_threads(configured: i32, available: Option<i32>) -> (r: i32)
    ensures
        r == (if configured > 0 {
            configured as int
        } else {
            auto_threads(
                match available {
                    Some(n) => n as int,
                    None => 4,
                },
            )
        }),
{
    if configured > 0 {
        return configured;
    }
    let n = match available {
        Some(n) => n,
        None => 4,
    };
    if n <= 2 {
        2
    } else if n >= 10 {
        8
    } else {
        n - 2
    }
}

/// The engine used when the whisper.cpp engine is not built in: it describes
/// its input instead of transcribing it.
pub struct MockEngine {
    pub config: AsrEngineConfig,
}

impl MockEngine {
    pub fn new(config: AsrEngineConfig) -> (r: Self)
        ensures
            r.config == config,
    {
        MockEngine { config }
    }

    /// Display name used by logs.
    pub fn name(&self) -> (r: &str)
        ensures
            r@ == "mock"@,
    {
        "mock"
    }
}

// ------------------------------------------------------------------
// Errors and download events
// ------------------------------------------------------------------

#[derive(Debug)]
pub enum AsrEngineError {
    ModelMissing(String),
    ModelLoad(String),
    Inference(String),
    Cancelled,
}

/// The message of an engine error.
pub open spec fn engine_error_text(e: AsrEngineError) -> Seq<char> {
    match e {
        AsrEngineError::ModelMissing(p) => "model file not found: "@ + p@,
        AsrEngineError::ModelLoad(m) => "model load failed: "@ + m@,
        AsrEngineError::Inference(m) => "inference failed: "@ + m@,
        AsrEngineError::Cancelled => "cancelled"@,
    }
}

impl AsrEngineError {
    /// The error's message.
    pub fn message(&self) -> (r: String)
        ensures
            r@ == engine_error_text(*self),
    {
        match self {
            AsrEngineError::ModelMissing(p) => {
                let mut t = to_string("model file not found: ");
                push_str(&mut t, p.as_str());
                t
            },
            AsrEngineError::ModelLoad(m) => {
                let mut t = to_string("model load failed: ");
                push_str(&mut t, m.as_str());
                t
            },
            AsrEngineError::Inference(m) => {
                let mut t = to_string("inference failed: ");
                push_str(&mut t, m.as_str());
                t
            },
            AsrEngineError::Cancelled => to_string("cancelled"),
        }
    }
}

/// Top-level errors; causes that are not values of this library are held as
/// their messages.
#[derive(Debug)]
pub enum AsrError {
    ModelMissing(String),
    Download(DownloadError),
    Audio(String),
    Engine(AsrEngineError),
    Io(String),
}

/// Snapshot emitted while bytes are flowing; `total` is `None` when the
/// server sends no length.
#[derive(Debug, Clone, Copy)]
pub struct DownloadProgress {
    pub bytes_received: u64,
    pub total: Option<u64>,
}

#[derive(Debug)]
pub enum DownloadEvent {
    Started { total: Option<u64> },
    Progress(DownloadProgress),
    /// Bytes finished and the SHA-256 matched; the model's final path.
    Finished { path: String },
    Failed(DownloadError),
}

#[derive(Debug)]
pub enum DownloadError {
    Http(String),
    BadStatus(u16),
    Io(String),
    HashMismatch { expected: String, actual: String },
    Cancelled,
}

/// Progress is reported every this many bytes.
pub const PROGRESS_STEP_BYTES: u64 = 262144;

/// The size to show: the announced length, else the catalog size.
pub fn download_total(content_length: Option<u64>, catalog_size: u64) -> (r: Option<u64>)
    ensures
        r == (match content_length {
            Some(n) => Some(n),
            None => Some(catalog_size),
        }),
{
    match content_length {
        Some(n) => Some(n),
        None => Some(catalog_size),
    }
}

/// Whether a progress event is due: at least one step received since the
/// last one reported.
pub fn progress_due(received: u64, last_reported: u64) -> (r: bool)
    requires
        last_reported <= received,
    ensures
        r == (received - last_reported >= PROGRESS_STEP_BYTES),
{
    received - last_reported >= PROGRESS_STEP_BYTES
}

/// The verdict on a finished download's digest: an empty expected digest
/// skips verification; otherwise the computed digest must equal it.
pub fn check_digest(expected: &str, computed: &str) -> (r: Result<(), DownloadError>)
    ensures
        r is Ok <==> (expected@.len() == 0 || expected@ == computed@),
        r matches Err(DownloadError::HashMismatch { expected: e, actual: a }) ==> e@ == expected@
            && a@ == computed@,
        r is Err ==> r->Err_0 is HashMismatch,
{
    if chars_of(expected).len() == 0 || str_eq(expected, computed) {
        Ok(())
    } else {
        Err(DownloadError::HashMismatch { expected: to_string(expected), actual: to_string(computed) })
    }
}

/// The bookkeeping of one model download: the bytes received, the count
/// last reported, the size to show, and the SHA-256 of what arrived.
pub struct DownloadTracker {
    hasher: Sha256Stream,
    received: u64,
    last_reported: u64,
    total: Option<u64>,
}

impl DownloadTracker {
    /// The bytes received so far, in order.
    pub closed spec fn data(&self) -> Seq<u8> {
        fed(self.hasher)
    }

    pub closed spec fn received_view(&self) -> u64 {
        self.received
    }

    pub closed spec fn last_reported_view(&self) -> u64 {
        self.last_reported
    }

    pub closed spec fn total_view(&self) -> Option<u64> {
        self.total
    }

    /// The count received is the length of the data, and no larger than
    /// the count last reported.
    pub closed spec fn wf(&self) -> bool {
        &&& self.received == fed(self.hasher).len()
        &&& self.last_reported <= self.received
    }

    /// A download starting with the announced length `content_length` of
    /// a model whose catalog size is `catalog_size`, and its `Started` event.
    pub fn start(content_length: Option<u64>, catalog_size: u64) -> (r: (Self, DownloadEvent))
        ensures
            r.0.wf(),
            r.0.data() == Seq::<u8>::empty(),
            r.0.received_view() == 0,
            r.0.last_reported_view() == 0,
            r.0.total_view() == (match content_length {
                Some(n) => Some(n),
                None => Some(catalog_size),
            }),
            r.1 == (DownloadEvent::Started { total: r.0.total_view() }),
    {
        let total = download_total(content_length, catalog_size);
        let t = DownloadTracker { hasher: Sha256Stream::new(), received: 0, last_reported: 0, total };
        (t, DownloadEvent::Started { total })
    }

    /// Takes in the next chunk; a `Progress` event when a step's worth of
    /// bytes arrived since the last one.
    pub fn on_chunk(&mut self, chunk: &[u8]) -> (r: Option<DownloadEvent>)
        requires
            old(self).wf(),
            old(self).received_view() + chunk@.len() <= u64::MAX,
        ensures
            final(self).wf(),
            final(self).data() == old(self).data() + chunk@,
            final(self).received_view() == old(self).received_view() + chunk@.len(),
            final(self).received_view() == final(self).data().len(),
            final(self).total_view() == old(self).total_view(),
            final(self).received_view() - old(self).last_reported_view() >= PROGRESS_STEP_BYTES ==> {
                &&& r == Some(
                    DownloadEvent::Progress(
                        DownloadProgress {
                            bytes_received: final(self).received_view(),
                            total: old(self).total_view(),
                        },
                    ),
                )
                &&& final(self).last_reported_view() == final(self).received_view()
            },
            final(self).received_view() - old(self).last_reported_view() < PROGRESS_STEP_BYTES ==> {
                &&& r is None
                &&& final(self).last_reported_view() == old(self).last_reported_view()
            },
    {
        self.hasher.update(chunk);
        self.received = self.received + chunk.len() as u64;
        if progress_due(self.received, self.last_reported) {
            self.last_reported = self.received;
            Some(
                DownloadEvent::Progress(
                    DownloadProgress { bytes_received: self.received, total: self.total },
                ),
            )
        } else {
            None
        }
    }

    /// The verdict once every byte arrived: `expected_sha256` (lower-case
    /// hex, empty when unknown) against the digest of the data.
    pub fn finish(self, expected_sha256: &str) -> (r: Result<(), DownloadError>)
        ensures
            r is Ok <==> (expected_sha256@.len() == 0 || expected_sha256@ == lower_hex(
                sha256(self.data()),
            )),
            r matches Err(DownloadError::HashMismatch { expected: e, actual: a }) ==> e@
                == expected_sha256@ && a@ == lower_hex(sha256(self.data())),
            r is Err ==> r->Err_0 is HashMismatch,
    {
        let digest = self.hasher.finalize();
        let computed = to_lower_hex(digest.as_slice());
        check_digest(expected_sha256, computed.as_str())
    }
}

// ------------------------------------------------------------------
// On-disk layout
// ------------------------------------------------------------------

/// `<data>/flowmux/asr/models`.
pub open spec fn models_root(data: Seq<char>) -> Seq<char> {
    path_join(path_join(path_join(data, "flowmux"@), "asr"@), "models"@)
}

/// A download's partial file is its model file with `.partial` appended,
/// so its path ends in `.bin.partial`.
pub proof fn lemma_partial_path_extends_model_path(root: Seq<char>, id: Seq<char>)
    ensures
        path_join(root, model_filename(id) + ".partial"@) == path_join(root, model_filename(id))
            + ".partial"@,
        ({
            let p = path_join(root, model_filename(id)) + ".partial"@;
            p.len() >= 12 && p.skip(p.len() - 12) == ".bin.partial"@
        }),
{
    reveal_strlit(".bin");
    reveal_strlit(".partial");
    reveal_strlit(".bin.partial");
    lemma_join_then_append(root, model_filename(id), ".partial"@);
    let m = path_join(root, model_filename(id));
    assert(m.len() >= 4 && m.skip(m.len() - 4) =~= ".bin"@) by {
        let n = model_filename(id);
        if n[0] == '/' {
        } else if root.len() == 0 || root.last() == '/' {
            assert(m == root + n);
        } else {
            assert(m == root + seq!['/'] + n);
        }
        assert(m.skip(m.len() - 4) =~= n.skip(n.len() - 4));
    }
    let p = m + ".partial"@;
    assert(p.skip(p.len() - 12) =~= ".bin.partial"@);
}

/// A verified model file's name: `<id>.bin`.
pub open spec fn is_model_file(name: Seq<char>) -> bool {
    name.len() >= 4 && name.skip(name.len() - 4) == ".bin"@
}

/// The name and size of each file.
pub open spec fn files_view(files: Seq<(String, u64)>) -> Seq<(Seq<char>, u64)> {
    files.map_values(|f: (String, u64)| (f.0@, f.1))
}

/// The bytes of the verified model files among `files`.
pub open spec fn model_bytes(files: Seq<(Seq<char>, u64)>) -> int
    decreases files.len(),
{
    if files.len() == 0 {
        0
    } else {
        model_bytes(files.drop_last()) + if is_model_file(files.last().0) {
            files.last().1 as int
        } else {
            0
        }
    }
}

proof fn lemma_model_bytes_prefix(files: Seq<(Seq<char>, u64)>, k: int)
    requires
        0 <= k <= files.len(),
    ensures
        0 <= model_bytes(files.take(k)) <= model_bytes(files),
    decreases files.len(),
{
    if files.len() > 0 {
        if k == files.len() {
            assert(files.take(k) =~= files);
        } else {
            assert(files.drop_last().take(k) =~= files.take(k));
        }
        if k < files.len() {
            lemma_model_bytes_prefix(files.drop_last(), k);
        }
        lemma_model_bytes_nonneg(files.drop_last());
    } else {
        assert(files.take(k) =~= files);
    }
}

proof fn lemma_model_bytes_nonneg(files: Seq<(Seq<char>, u64)>)
    ensures
        model_bytes(files) >= 0,
    decreases files.len(),
{
    if files.len() > 0 {
        lemma_model_bytes_nonneg(files.drop_last());
    }
}

/// Storage root for downloaded models: `<root>/<id>.bin` once verified,
/// `<root>/<id>.bin.partial` while downloading.
#[derive(Debug, Clone)]
pub struct ModelStore {
    root: String,
}

impl ModelStore {
    pub closed spec fn root_view(&self) -> Seq<char> {
        self.root@
    }

    /// The store under the user's data directory `data`:
    /// `<data>/flowmux/asr/models`.
    pub fn under(data: &str) -> (r: Self)
        ensures
            r.root_view() == models_root(data@),
    {
        let a = join_path(data, "flowmux");
        let b = join_path(a.as_str(), "asr");
        ModelStore { root: join_path(b.as_str(), "models") }
    }

    /// The store under the user's data directory, when there is one.
    pub fn xdg_default() -> (r: Option<Self>)
        ensures
            r matches Some(s) ==> exists|d: Seq<char>| s.root_view() == models_root(d),
    {
        match data_dir() {
            Some(d) => Some(ModelStore::under(d.as_str())),
            None => None,
        }
    }

    /// A store rooted under an explicit directory.
    pub fn new(root: &str) -> (r: Self)
        ensures
            r.root_view() == root@,
    {
        ModelStore { root: to_string(root) }
    }

    pub fn root(&self) -> (r: &str)
        ensures
            r@ == self.root_view(),
    {
        self.root.as_str()
    }

    /// Final path of a verified model.
    pub fn model_path(&self, entry: &ModelEntry) -> (r: String)
        ensures
            r@ == path_join(self.root_view(), model_filename(entry.id.0@)),
    {
        let name = entry.filename();
        join_path(self.root.as_str(), name.as_str())
    }

    /// In-flight download target: the model file name with `.partial`.
    pub fn partial_path(&self, entry: &ModelEntry) -> (r: String)
        ensures
            r@ == path_join(self.root_view(), model_filename(entry.id.0@) + ".partial"@),
            r@ == path_join(self.root_view(), model_filename(entry.id.0@)) + ".partial"@,
    {
        let mut name = entry.filename();
        push_str(&mut name, ".partial");
        proof {
            lemma_partial_path_extends_model_path(self.root_view(), entry.id.0@);
        }
        join_path(self.root.as_str(), name.as_str())
    }

    /// Total bytes of the verified model files among `files`, the
    /// (name, size) pairs of the files directly under the store's root.
    pub fn usage_of(files: &Vec<(String, u64)>) -> (r: u64)
        requires
            model_bytes(files_view(files@)) <= u64::MAX,
        ensures
            r == model_bytes(files_view(files@)),
    {
        let ghost all = files_view(files@);
        let mut total: u64 = 0;
        let mut i: usize = 0;
        while i < files.len()
            invariant
                i <= files@.len(),
                all == files_view(files@),
                model_bytes(all) <= u64::MAX,
                total == model_bytes(all.take(i as int)),
            decreases files@.len() - i,
        {
            let ghost pre = all.take(i as int);
            assert(all.take(i + 1).drop_last() =~= pre);
            assert(all.take(i + 1).last() == all[i as int]);
            proof {
                lemma_model_bytes_prefix(all, i + 1);
            }
            if ModelStore::installed_id(files[i].0.as_str()).is_some() {
                total = total + files[i].1;
            }
            i = i + 1;
        }
        assert(all.take(all.len() as int) =~= all);
        total
    }

    /// The model id a directory entry names: its name without `.bin`, when
    /// it ends in `.bin`.
    pub fn installed_id(file_name: &str) -> (r: Option<ModelId>)
        ensures
            match r {
                Some(id) => file_name@.len() >= 4 && file_name@.skip(file_name@.len() - 4)
                    == ".bin"@ && id.0@ == file_name@.take(file_name@.len() - 4),
                None => !(file_name@.len() >= 4 && file_name@.skip(file_name@.len() - 4)
                    == ".bin"@),
            },
    {
        let v = chars_of(file_name);
        let n = v.len();
        proof {
            reveal_strlit(".bin");
        }
        if n >= 4 && v[n - 4] == '.' && v[n - 3] == 'b' && v[n - 2] == 'i' && v[n - 1] == 'n' {
            assert(v@.skip(n - 4) =~= ".bin"@);
            let id = crate::text::string_of_range(&v, 0, n - 4);
            assert(id@ =~= v@.take(n - 4));
            Some(ModelId(id))
        } else {
            proof {
                if n >= 4 && v@.skip(n - 4) == ".bin"@ {
                    assert(v@.skip(n - 4)[0] == v@[n - 4]);
                    assert(v@.skip(n - 4)[1] == v@[n - 3]);
                    assert(v@.skip(n - 4)[2] == v@[n - 2]);
                    assert(v@.skip(n - 4)[3] == v@[n - 1]);
                }
            }
            None
        }
    }
}

// ------------------------------------------------------------------
// Push-to-talk session
// ------------------------------------------------------------------

/// Knobs the GUI tunes per session; durations in milliseconds.
#[derive(Debug, Clone)]
pub struct SessionConfig {
    pub device_name: Option<String>,
    pub max_duration_ms: u64,
    /// Append `\r` to the transcription before injecting it.
    pub auto_enter: bool,
    /// Recordings shorter than this are dropped; `0` disables the floor.
    pub min_duration_ms: u64,
}

impl Default for SessionConfig {
    fn default() -> (r: Self)
        ensures
            r.device_name is None,
            r.max_duration_ms == 30_000,
            !r.auto_enter,
            r.min_duration_ms == 200,
    {
        SessionConfig { device_name: None, max_duration_ms: 30_000, auto_enter: false, min_duration_ms: 200 }
    }
}

/// Whether a transcription's text is blank: nothing but white space.
pub fn is_blank_text(text: &str) -> (r: bool)
    ensures
        r == (trim(text@).len() == 0),
{
    trimmed(&chars_of(text)).len() == 0
}

/// The text to inject for a finished transcription: `None` when it is
/// blank (the recording is dropped as too short); otherwise the text, with
/// `\r` appended when `auto_enter` is set and it does not end in a newline.
pub fn finished_text(text: String, auto_enter: bool) -> (r: Option<String>)
    ensures
        trim(text@).len() == 0 ==> r is None,
        trim(text@).len() != 0 ==> (r matches Some(t) && t@ == (if auto_enter && !(text@.len() > 0
            && text@.last() == '\n') {
            text@.push('\r')
        } else {
            text@
        })),
{
    if is_blank_text(text.as_str()) {
        return None;
    }
    let v = chars_of(text.as_str());
    let mut out = text;
    if auto_enter && !(v.len() > 0 && v[v.len() - 1] == '\n') {
        push(&mut out, '\r');
    }
    Some(out)
}

/// Longest preview of an injected transcription, in characters.
pub const PREVIEW_CHARS: usize = 60;

/// The toast preview of injected text: the text itself when it has at most
/// `PREVIEW_CHARS` characters, else its first `PREVIEW_CHARS` and `…`.
pub fn preview(text: &str) -> (r: String)
    ensures
        r@ == (if text@.len() <= PREVIEW_CHARS {
            text@
        } else {
            text@.take(PREVIEW_CHARS as int).push('…')
        }),
{
    let v = chars_of(text);
    if v.len() <= PREVIEW_CHARS {
        return to_string(text);
    }
    let mut out = crate::text::string_of_range(&v, 0, PREVIEW_CHARS);
    assert(out@ =~= v@.take(PREVIEW_CHARS as int));
    push(&mut out, '…');
    out
}

// ------------------------------------------------------------------
// Push-to-talk session
// ------------------------------------------------------------------

/// What a push-to-talk session asks its driver to do next.
#[derive(Debug, Clone, PartialEq, Eq)]
pub enum PttStep {
    /// Open the microphone and start recording; report `Recording` once it
    /// runs.
    StartCapture,
    /// Stop the recording and hand the audio to the engine.
    StopAndTranscribe,
    /// Report a failure with this message.
    Fail(String),
}

/// How a finished transcription is reported.
#[derive(Debug, Clone, PartialEq, Eq)]
pub enum PttOutcome {
    /// The text to inject.
    Done(String),
    /// Nothing but white space was heard: dropped as too short.
    DroppedBlank,
    Cancelled,
    Failed(String),
}

/// The push-to-talk session's own state: whether a capture runs, and
/// whether the running work was asked to stop.
#[derive(Debug, Clone, Copy)]
pub struct PttControl {
    recording: bool,
    cancel_requested: bool,
}

impl PttControl {
    pub closed spec fn recording_view(&self) -> bool {
        self.recording
    }

    pub closed spec fn cancel_view(&self) -> bool {
        self.cancel_requested
    }

    /// A session that records nothing yet.
    pub fn new() -> (r: Self)
        ensures
            !r.recording_view(),
            !r.cancel_view(),
    {
        PttControl { recording: false, cancel_requested: false }
    }

    /// Whether a capture is running.
    pub fn is_recording(&self) -> (r: bool)
        ensures
            r == self.recording_view(),
    {
        self.recording
    }

    /// Whether the session was asked to stop.
    pub fn cancel_requested(&self) -> (r: bool)
        ensures
            r == self.cancel_view(),
    {
        self.cancel_requested
    }

    /// A request to start recording: refused while one runs.
    pub fn start(&self) -> (r: PttStep)
        ensures
            self.recording_view() ==> (r matches PttStep::Fail(m) && m@ == "이미 녹음 중입니다"@),
            !self.recording_view() ==> r == PttStep::StartCapture,
    {
        if self.recording {
            PttStep::Fail(to_string("이미 녹음 중입니다"))
        } else {
            PttStep::StartCapture
        }
    }

    /// The capture asked for by `start` runs: recording, nothing cancelled.
    pub fn capture_started(&mut self)
        ensures
            final(self).recording_view(),
            !final(self).cancel_view(),
    {
        self.recording = true;
        self.cancel_requested = false;
    }

    /// A request to stop and transcribe: it fails, changing nothing, when
    /// nothing is recorded; otherwise the capture ends.
    pub fn finish(&mut self) -> (r: PttStep)
        ensures
            !old(self).recording_view() ==> (r matches PttStep::Fail(m) && m@
                == "녹음이 시작되지 않았습니다"@),
            !old(self).recording_view() ==> *final(self) == *old(self),
            old(self).recording_view() ==> r == PttStep::StopAndTranscribe,
            old(self).recording_view() ==> !final(self).recording_view(),
            final(self).cancel_view() == old(self).cancel_view(),
    {
        if !self.recording {
            return PttStep::Fail(to_string("녹음이 시작되지 않았습니다"));
        }
        self.recording = false;
        PttStep::StopAndTranscribe
    }

    /// Cancels the session: the running work is asked to stop and any
    /// capture ends; `true` when a capture was running and is to be
    /// discarded. The session then reports `Cancelled`.
    pub fn cancel(&mut self) -> (abort_capture: bool)
        ensures
            abort_capture == old(self).recording_view(),
            !final(self).recording_view(),
            final(self).cancel_view(),
    {
        let was = self.recording;
        self.cancel_requested = true;
        self.recording = false;
        was
    }
}

/// The report for what the engine returned: its cancellation is
/// `Cancelled`, another error `Failed` with its message, blank text is
/// dropped, and other text is done (with `\r` appended under `auto_enter`
/// when it does not end in a newline).
pub fn transcription_outcome(result: Result<String, AsrEngineError>, auto_enter: bool) -> (r: PttOutcome)
    ensures
        match result {
            Err(AsrEngineError::Cancelled) => r == PttOutcome::Cancelled,
            Err(e) => (r matches PttOutcome::Failed(m) && m@ == engine_error_text(e)),
            Ok(text) => if trim(text@).len() == 0 {
                r == PttOutcome::DroppedBlank
            } else {
                (r matches PttOutcome::Done(t) && t@ == (if auto_enter && !(text@.len() > 0
                    && text@.last() == '\n') {
                    text@.push('\r')
                } else {
                    text@
                }))
            },
        },
{
    match result {
        Err(AsrEngineError::Cancelled) => PttOutcome::Cancelled,
        Err(e) => PttOutcome::Failed(e.message()),
        Ok(text) => match finished_text(text, auto_enter) {
            Some(t) => PttOutcome::Done(t),
            None => PttOutcome::DroppedBlank,
        },
    }
}

/// Characters kept when text is injected into a PTY: tab, newline, and
/// everything from U+0020 up except DEL.
pub open spec fn pty_safe(c: char) -> bool {
    c == '\n' || c == '\t' || ((c as u32) >= 0x20 && c != '\u{7f}')
}

/// `s` without the characters a PTY must not receive.
pub open spec fn spec_sanitize(s: Seq<char>) -> Seq<char>
    decreases s.len(),
{
    if s.len() == 0 {
        Seq::empty()
    } else if pty_safe(s.last()) {
        spec_sanitize(s.drop_last()).push(s.last())
    } else {
        spec_sanitize(s.drop_last())
    }
}

/// Sanitise transcription text before it is injected into a PTY: control
/// characters (ESC among them) and DEL are dropped, tab and newline kept.
pub fn sanitize_for_pty(input: &str) -> (r: String)
    ensures
        r@ == spec_sanitize(input@),
{
    let mut out = String::new();
    for ch in it: input.chars()
        invariant
            it.seq() == input@,
            out@ == spec_sanitize(it.seq().take(it.index() as int)),
    {
        let ghost pre = it.seq().take(it.index() as int);
        let ghost post = it.seq().take(it.index() + 1);
        assert(post.drop_last() =~= pre);
        assert(post.last() == ch);
        if ch == '\n' || ch == '\t' {
            push(&mut out, ch);
        } else if (ch as u32) < 0x20 || ch == '\u{7f}' {
        } else {
            push(&mut out, ch);
        }
    }
    assert(input@.take(input@.len() as int) =~= input@);
    out
}

/// Sanitised text holds only PTY-safe characters.
pub proof fn lemma_sanitize_only_safe(s: Seq<char>)
    ensures
        forall|i: int| 0 <= i < spec_sanitize(s).len() ==> pty_safe(#[trigger] spec_sanitize(s)[i]),
    decreases s.len(),
{
    if s.len() > 0 {
        let d = s.drop_last();
        lemma_sanitize_only_safe(d);
        let r = spec_sanitize(s);
        let rd = spec_sanitize(d);
        assert forall|i: int| 0 <= i < r.len() implies pty_safe(#[trigger] r[i]) by {
            if pty_safe(s.last()) {
                assert(r == rd.push(s.last()));
                if i < rd.len() {
                    assert(r[i] == rd[i]);
                }
            } else {
                assert(r == rd);
            }
        }
    }
}

/// Text that holds only PTY-safe characters passes through unchanged, so
/// sanitising twice is sanitising once.
pub proof fn lemma_sanitize_keeps_safe_text(s: Seq<char>)
    requires
        forall|i: int| 0 <= i < s.len() ==> pty_safe(#[trigger] s[i]),
    ensures
        spec_sanitize(s) == s,
    decreases s.len(),
{
    if s.len() > 0 {
        let d = s.drop_last();
        assert forall|i: int| 0 <= i < d.len() implies pty_safe(#[trigger] d[i]) by {
            assert(d[i] == s[i]);
        }
        lemma_sanitize_keeps_safe_text(d);
        assert(pty_safe(s[s.len() - 1]));
        assert(d.push(s.last()) =~= s);
    }
}

/// Sanitising is idempotent.
pub proof fn lemma_sanitize_idempotent(s: Seq<char>)
    ensures
        spec_sanitize(spec_sanitize(s)) == spec_sanitize(s),
{
    lemma_sanitize_only_safe(s);
    lemma_sanitize_keeps_safe_text(spec_sanitize(s));
}

} // verus!
