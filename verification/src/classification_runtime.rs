//! Making vectors of texts for classification, some texts at a time.
use crate::text;
use vstd::prelude::*;
use vstd::string::*;
use vstd::utf8::*;

verus! {

/// How long all chunks of a request may take together.
pub const EMBED_TIMEOUT_SECS: u64 = 120;

/// How long a request stands aside for queries of the user.
pub const FOREGROUND_WAIT_BUDGET_MS: u64 = 15_000;

/// How long a request waits for another batch in the background.
pub const BACKGROUND_BATCH_WAIT_BUDGET_MS: u64 = 15_000;

/// How many texts a request may hold.
pub const MAX_TEXTS_PER_REQUEST: usize = 512;

/// What the worker that makes vectors takes: texts in a batch, bytes in a text,
/// and bytes in a request.
#[derive(Debug, Clone, Copy, PartialEq, Eq, Structural)]
pub struct SemanticLimits {
    pub batch: usize,
    pub text_item_bytes: usize,
    pub text_bytes: usize,
}

/// How requests went so far. Times are double-precision numbers, by their bits.
#[derive(Debug)]
pub struct ClassificationDiagnosticInner {
    pub last_error: Option<String>,
    pub failure_count: u64,
    pub success_count: u64,
    pub last_elapsed_ms: Option<u64>,
}

/// How requests went so far, as it is told.
#[derive(Debug)]
pub struct ClassificationBackendStatus {
    pub last_error: Option<String>,
    pub failure_count: u64,
    pub success_count: u64,
    pub last_elapsed_ms: Option<u64>,
}

/// One more, up to the limit.
pub open spec fn one_more(n: u64) -> u64 {
    if n == u64::MAX {
        n
    } else {
        (n + 1) as u64
    }
}

impl Default for ClassificationDiagnosticInner {
    fn default() -> (result: Self)
        ensures
            result.last_error is None,
            result.failure_count == 0,
            result.success_count == 0,
            result.last_elapsed_ms is None,
    {
        ClassificationDiagnosticInner {
            last_error: None,
            failure_count: 0,
            success_count: 0,
            last_elapsed_ms: None,
        }
    }
}

impl ClassificationDiagnosticInner {
    /// A request succeeded.
    pub fn record_rust_success(&mut self, elapsed_ms: u64)
        ensures
            final(self).last_error is None,
            final(self).failure_count == old(self).failure_count,
            final(self).success_count == one_more(old(self).success_count),
            final(self).last_elapsed_ms == Some(elapsed_ms),
    {
        self.last_error = None;
        self.success_count = self.success_count.saturating_add(1);
        self.last_elapsed_ms = Some(elapsed_ms);
    }

    /// A request failed.
    pub fn record_rust_failure(&mut self, error: &str, elapsed_ms: u64)
        ensures
            final(self).last_error matches Some(e) && e@ == text::take_chars(error@, 512),
            final(self).failure_count == one_more(old(self).failure_count),
            final(self).success_count == old(self).success_count,
            final(self).last_elapsed_ms == Some(elapsed_ms),
    {
        self.last_error = Some(truncate_error(error));
        self.failure_count = self.failure_count.saturating_add(1);
        self.last_elapsed_ms = Some(elapsed_ms);
    }

    /// How requests went so far.
    pub fn backend_status(&self) -> (result: ClassificationBackendStatus)
        ensures
            match (result.last_error, self.last_error) {
                (Some(shown), Some(e)) => shown@ == e@,
                (None, None) => true,
                _ => false,
            },
            result.failure_count == self.failure_count,
            result.success_count == self.success_count,
            result.last_elapsed_ms == self.last_elapsed_ms,
    {
        ClassificationBackendStatus {
            last_error: match &self.last_error {
                Some(e) => Some(e.clone()),
                None => None,
            },
            failure_count: self.failure_count,
            success_count: self.success_count,
            last_elapsed_ms: self.last_elapsed_ms,
        }
    }
}

/// An error, cut to a length that is kept.
pub fn truncate_error(error: &str) -> (result: String)
    ensures
        result@ == text::take_chars(error@, 512),
{
    text::prefix(error, 512)
}

/// The graphics card is used if it is wanted, but not during games.
pub fn directml_preference(configured: bool, game_mode_suppressed: bool) -> (result: bool)
    ensures
        result == (configured && !game_mode_suppressed),
{
    configured && !game_mode_suppressed
}

/// The bytes of the first texts.
pub open spec fn bytes_of(texts: Seq<String>) -> nat
    decreases texts.len(),
{
    if texts.len() == 0 {
        0
    } else {
        bytes_of(texts.drop_last()) + encode_utf8(texts.last()@).len()
    }
}

/// What a text that is too long is refused with.
pub open spec fn item_text(bytes: nat, limit: nat) -> Seq<char> {
    "limit_exceeded: BGE text item exceeds limit: "@ + text::decimal(bytes) + " > "@
        + text::decimal(limit) + " bytes"@
}

/// What a request that is too long is refused with.
pub open spec fn payload_text(limit: nat) -> Seq<char> {
    "limit_exceeded: BGE text payload exceeds "@ + text::decimal(limit) + " bytes"@
}

/// Why a request is refused, if it is. The sum of the bytes is formed text by
/// text, and must not go beyond what a length can say.
pub open spec fn refusal(texts: Seq<String>, limits: SemanticLimits) -> Option<Seq<char>> {
    if texts.len() == 0 {
        Some("invalid_request: BGE text list is empty"@)
    } else if texts.len() > MAX_TEXTS_PER_REQUEST {
        Some("invalid_request: BGE text list exceeds 512 items"@)
    } else {
        match first_refusal(texts, limits) {
            Some(told) => Some(told),
            None => if bytes_of(texts) > limits.text_bytes {
                Some(payload_text(limits.text_bytes as nat))
            } else {
                None
            },
        }
    }
}

/// Why the texts are refused one by one, if they are.
pub open spec fn first_refusal(texts: Seq<String>, limits: SemanticLimits) -> Option<Seq<char>>
    decreases texts.len(),
{
    if texts.len() == 0 {
        None
    } else {
        match first_refusal(texts.drop_last(), limits) {
            Some(told) => Some(told),
            None => if encode_utf8(texts.last()@).len() > limits.text_item_bytes {
                Some(
                    item_text(
                        encode_utf8(texts.last()@).len(),
                        limits.text_item_bytes as nat,
                    ),
                )
            } else if bytes_of(texts) > usize::MAX {
                Some("invalid_request: BGE text length overflow"@)
            } else {
                None
            },
        }
    }
}

proof fn lemma_refusal_stays(texts: Seq<String>, limits: SemanticLimits, n: int)
    requires
        0 <= n <= texts.len(),
        first_refusal(texts.take(n), limits) is Some,
    ensures
        first_refusal(texts, limits) == first_refusal(texts.take(n), limits),
    decreases texts.len() - n,
{
    if n < texts.len() {
        assert(texts.take(n + 1).drop_last() =~= texts.take(n));
        lemma_refusal_stays(texts, limits, n + 1);
    } else {
        assert(texts.take(n) =~= texts);
    }
}

/// Checks a request.
pub fn validate_texts(texts: &[String], limits: &SemanticLimits) -> (result: Result<(), String>)
    ensures
        match result {
            Ok(_) => refusal(texts@, *limits) is None,
            Err(e) => refusal(texts@, *limits) == Some(e@),
        },
{
    if texts.len() == 0 {
        return Err("invalid_request: BGE text list is empty".to_owned());
    }
    if texts.len() > MAX_TEXTS_PER_REQUEST {
        return Err("invalid_request: BGE text list exceeds 512 items".to_owned());
    }
    let mut total: usize = 0;
    let mut i: usize = 0;
    while i < texts.len()
        invariant
            i <= texts@.len(),
            0 < texts@.len() <= MAX_TEXTS_PER_REQUEST,
            total == bytes_of(texts@.take(i as int)),
            first_refusal(texts@.take(i as int), *limits) is None,
        decreases texts@.len() - i,
    {
        proof {
            assert(texts@.take(i + 1).drop_last() =~= texts@.take(i as int));
            assert(texts@.take(i + 1).last() == texts@[i as int]);
        }
        let item: usize = texts[i].as_str().as_bytes().len();
        if item > limits.text_item_bytes {
            proof {
                lemma_refusal_stays(texts@, *limits, i + 1);
            }
            let shown = text::decimal_string(item as u64);
            let limit = text::decimal_string(limits.text_item_bytes as u64);
            let head = text::join3(
                "limit_exceeded: BGE text item exceeds limit: ",
                &shown,
                " > ",
            );
            return Err(text::join3(&head, &limit, " bytes"));
        }
        match total.checked_add(item) {
            Some(sum) => {
                total = sum;
            },
            None => {
                proof {
                    lemma_refusal_stays(texts@, *limits, i + 1);
                }
                return Err("invalid_request: BGE text length overflow".to_owned());
            },
        }
        i = i + 1;
    }
    assert(texts@.take(texts@.len() as int) =~= texts@);
    if total > limits.text_bytes {
        let limit = text::decimal_string(limits.text_bytes as u64);
        return Err(
            text::join3("limit_exceeded: BGE text payload exceeds ", &limit, " bytes"),
        );
    }
    Ok(())
}

/// What a request does while queries of the user are waiting.
#[derive(Debug)]
pub enum ForegroundStep {
    /// None is: it goes on.
    GoOn,
    /// It waits, in milliseconds, and asks again.
    Wait { ms: u64 },
    /// It gives up.
    GiveUp { error: String },
}

/// What a batch does about a query in front.
pub open spec fn stood_aside(
    waiting: bool,
    stood_ms: u64,
    remaining_ms: u64,
    poll_ms: u64,
    result: ForegroundStep,
) -> bool {
    if !waiting {
        result is GoOn
    } else if stood_ms >= FOREGROUND_WAIT_BUDGET_MS {
        result is GiveUp && result->error@
            == "foreground_busy: BGE classification stood aside for a foreground query"@
    } else if remaining_ms == 0 {
        result is GiveUp && result->error@
            == "foreground_busy: BGE classification deadline expired while standing aside for a foreground query"@
    } else {
        result is Wait && result->ms == if poll_ms < remaining_ms {
            poll_ms
        } else {
            remaining_ms
        }
    }
}

/// What a request does while queries of the user are waiting: how long it has
/// stood aside, what is left of its time, and how often it asks, all in
/// milliseconds.
pub fn stand_aside(waiting: bool, stood_ms: u64, remaining_ms: u64, poll_ms: u64) -> (result:
    ForegroundStep)
    ensures
        stood_aside(waiting, stood_ms, remaining_ms, poll_ms, result),
{
    if !waiting {
        return ForegroundStep::GoOn;
    }
    if stood_ms >= FOREGROUND_WAIT_BUDGET_MS {
        return ForegroundStep::GiveUp {
            error: "foreground_busy: BGE classification stood aside for a foreground query".to_owned(),
        };
    }
    if remaining_ms == 0 {
        return ForegroundStep::GiveUp {
            error:
                "foreground_busy: BGE classification deadline expired while standing aside for a foreground query".to_owned(),
        };
    }
    ForegroundStep::Wait {
        ms: if poll_ms < remaining_ms {
            poll_ms
        } else {
            remaining_ms
        },
    }
}

/// The error of a request that another batch in the background kept from
/// starting.
pub fn slot_error() -> (result: String)
    ensures
        result@
            == "background_busy: BGE classification stood aside for another background model batch"@,
{
    "background_busy: BGE classification stood aside for another background model batch".to_owned()
}

/// Until when a request waits for another batch: not beyond its own end. Times
/// are in milliseconds.
pub fn slot_deadline(now_ms: u64, deadline_ms: u64) -> (result: u64)
    requires
        now_ms <= u64::MAX - BACKGROUND_BATCH_WAIT_BUDGET_MS,
    ensures
        result == if now_ms + BACKGROUND_BATCH_WAIT_BUDGET_MS < deadline_ms {
            (now_ms + BACKGROUND_BATCH_WAIT_BUDGET_MS) as u64
        } else {
            deadline_ms
        },
{
    let wait: u64 = now_ms + BACKGROUND_BATCH_WAIT_BUDGET_MS;
    if wait < deadline_ms {
        wait
    } else {
        deadline_ms
    }
}

/// The chunks that texts are sent in: each is as long as a batch, but for the
/// last.
pub open spec fn chunks_of<T>(texts: Seq<T>, batch: nat) -> Seq<Seq<T>>
    decreases texts.len(),
{
    if texts.len() == 0 || batch == 0 {
        Seq::empty()
    } else if texts.len() <= batch {
        seq![texts]
    } else {
        seq![texts.take(batch as int)] + chunks_of(texts.skip(batch as int), batch)
    }
}

/// What chunks hold, one after the other.
pub open spec fn joined<T>(chunks: Seq<Seq<T>>) -> Seq<T>
    decreases chunks.len(),
{
    if chunks.len() == 0 {
        Seq::empty()
    } else {
        chunks[0] + joined(chunks.drop_first())
    }
}

/// No chunk is larger than a batch, none is empty, and together they are all
/// texts, in order.
pub proof fn law_chunks<T>(texts: Seq<T>, batch: nat)
    requires
        batch > 0,
    ensures
        forall|i: int|
            0 <= i < chunks_of(texts, batch).len() ==> 0 < (#[trigger] chunks_of(
                texts,
                batch,
            )[i]).len() <= batch,
        joined(chunks_of(texts, batch)) == texts,
    decreases texts.len(),
{
    let all = chunks_of(texts, batch);
    if texts.len() > batch {
        let rest = chunks_of(texts.skip(batch as int), batch);
        law_chunks(texts.skip(batch as int), batch);
        assert(all.drop_first() =~= rest);
        assert forall|i: int| 0 <= i < all.len() implies 0 < (#[trigger] all[i]).len() <= batch by {
            if i > 0 {
                assert(all[i] == rest[i - 1]);
            }
        }
        assert(joined(all) =~= texts);
    } else if texts.len() > 0 {
        assert(all.drop_first() =~= Seq::<Seq<T>>::empty());
        assert(joined(all.drop_first()) =~= Seq::<T>::empty());
        assert(joined(all) =~= texts);
    }
}

/// The chunks that texts are sent in.
pub fn semantic_text_chunks<'a>(texts: &'a [String], batch: usize) -> (result: Vec<&'a [String]>)
    requires
        batch > 0,
    ensures
        result@.map_values(|chunk: &[String]| chunk@) == chunks_of(texts@, batch as nat),
{
    let mut chunks: Vec<&'a [String]> = Vec::new();
    let mut at: usize = 0;
    assert(texts@.skip(0) =~= texts@);
    assert(chunks@.map_values(|chunk: &[String]| chunk@) + chunks_of(texts@, batch as nat)
        =~= chunks_of(texts@, batch as nat));
    while at < texts.len()
        invariant
            batch > 0,
            at <= texts@.len(),
            chunks@.map_values(|chunk: &[String]| chunk@) + chunks_of(
                texts@.skip(at as int),
                batch as nat,
            ) == chunks_of(texts@, batch as nat),
        decreases texts@.len() - at,
    {
        let end: usize = if texts.len() - at <= batch {
            texts.len()
        } else {
            at + batch
        };
        let ghost before = chunks@.map_values(|chunk: &[String]| chunk@);
        let ghost left = texts@.skip(at as int);
        let chunk = vstd::slice::slice_subrange(texts, at, end);
        chunks.push(chunk);
        proof {
            let after = chunks@.map_values(|chunk: &[String]| chunk@);
            let rest = chunks_of(texts@.skip(end as int), batch as nat);
            assert(after =~= before.push(chunk@));
            if left.len() <= batch {
                assert(chunk@ =~= left);
                assert(texts@.skip(end as int).len() == 0);
            } else {
                assert(chunk@ =~= left.take(batch as int));
                assert(left.skip(batch as int) =~= texts@.skip(end as int));
            }
            assert(chunks_of(left, batch as nat) =~= seq![chunk@] + rest);
            assert(before.push(chunk@) + rest =~= before + (seq![chunk@] + rest));
        }
        at = end;
    }
    assert(texts@.skip(at as int).len() == 0);
    assert(chunks@.map_values(|chunk: &[String]| chunk@) + chunks_of(
        texts@.skip(at as int),
        batch as nat,
    ) =~= chunks@.map_values(|chunk: &[String]| chunk@));
    chunks
}

/// The error of a chunk: where a query of the user came meanwhile, the request
/// gave way to it.
pub fn chunk_error(error: String, foreground_waiting: bool) -> (result: String)
    ensures
        result@ == if foreground_waiting {
            "foreground_busy: BGE classification yielded after a foreground query arrived: "@
                + error@
        } else {
            error@
        },
{
    if foreground_waiting {
        text::join2(
            "foreground_busy: BGE classification yielded after a foreground query arrived: ",
            &error,
        )
    } else {
        error
    }
}

/// The answers to a request, chunk by chunk: how many numbers their vectors
/// have, and how many vectors there are.
#[derive(Debug, Clone, Copy, PartialEq, Eq, Structural)]
pub struct ChunkAnswers {
    pub dimensions: Option<usize>,
    pub chunks: usize,
    pub vectors: usize,
}

/// A width that is not the one that was told.
pub open spec fn mismatched(widths: Seq<usize>, dimensions: usize) -> bool {
    exists|i: int| 0 <= i < widths.len() && #[trigger] widths[i] != dimensions
}

/// What is wrong with the answer to a chunk, if anything is.
pub open spec fn chunk_fault(
    answers: ChunkAnswers,
    texts: usize,
    dimensions: usize,
    widths: Seq<usize>,
) -> Option<Seq<char>> {
    let number = text::decimal((answers.chunks + 1) as nat);
    if widths.len() != texts {
        Some(
            "protocol: BGE response contains "@ + text::decimal(widths.len()) + " vectors for "@
                + text::decimal(texts as nat) + " texts in chunk "@ + number,
        )
    } else if mismatched(widths, dimensions) {
        Some("protocol: BGE response contains a mismatched vector dimension in chunk "@ + number)
    } else if answers.dimensions is Some && answers.dimensions->0 != dimensions {
        Some(
            "protocol: BGE response dimension changed between chunks: expected "@ + text::decimal(
                answers.dimensions->0 as nat,
            ) + ", got "@ + text::decimal(dimensions as nat),
        )
    } else {
        None
    }
}

impl ChunkAnswers {
    pub fn new() -> (result: Self)
        ensures
            result == (ChunkAnswers { dimensions: None, chunks: 0, vectors: 0 }),
    {
        ChunkAnswers { dimensions: None, chunks: 0, vectors: 0 }
    }

    /// What a further answer comes to.
    pub open spec fn answer_taken(
        before: Self,
        after: Self,
        texts: usize,
        dimensions: usize,
        widths: &Vec<usize>,
        result: Result<(), String>,
    ) -> bool {
        match result {
            Ok(_) => {
                &&& chunk_fault(before, texts, dimensions, widths@) is None
                &&& after == (ChunkAnswers {
                    dimensions: Some(dimensions),
                    chunks: (before.chunks + 1) as usize,
                    vectors: (before.vectors + texts) as usize,
                })
            },
            Err(e) => {
                &&& chunk_fault(before, texts, dimensions, widths@) == Some(e@)
                &&& after == before
            },
        }
    }

    /// The answer to the next chunk came: how many numbers each vector has, by
    /// what it tells and by what it holds.
    pub fn answered(&mut self, texts: usize, dimensions: usize, widths: &Vec<usize>) -> (result:
        Result<(), String>)
        requires
            old(self).chunks < MAX_TEXTS_PER_REQUEST,
            old(self).vectors + texts <= MAX_TEXTS_PER_REQUEST,
        ensures
            Self::answer_taken(*old(self), *final(self), texts, dimensions, widths, result),
    {
        let number = text::decimal_string((self.chunks + 1) as u64);
        if widths.len() != texts {
            let found = text::decimal_string(widths.len() as u64);
            let wanted = text::decimal_string(texts as u64);
            let head = text::join3("protocol: BGE response contains ", &found, " vectors for ");
            let middle = text::join3(&head, &wanted, " texts in chunk ");
            return Err(text::join2(&middle, &number));
        }
        let mut i: usize = 0;
        while i < widths.len()
            invariant
                i <= widths@.len(),
                widths@.len() == texts,
                number@ == text::decimal((self.chunks + 1) as nat),
                *self == *old(self),
                forall|j: int| 0 <= j < i ==> #[trigger] widths@[j] == dimensions,
            decreases widths@.len() - i,
        {
            if widths[i] != dimensions {
                return Err(
                    text::join2(
                        "protocol: BGE response contains a mismatched vector dimension in chunk ",
                        &number,
                    ),
                );
            }
            i = i + 1;
        }
        match self.dimensions {
            Some(expected) => {
                if expected != dimensions {
                    let wanted = text::decimal_string(expected as u64);
                    let got = text::decimal_string(dimensions as u64);
                    let head = text::join3(
                        "protocol: BGE response dimension changed between chunks: expected ",
                        &wanted,
                        ", got ",
                    );
                    return Err(text::join2(&head, &got));
                }
            },
            None => {},
        }
        self.dimensions = Some(dimensions);
        self.chunks = self.chunks + 1;
        self.vectors = self.vectors + texts;
        Ok(())
    }

    /// All chunks were answered: how many numbers each vector has.
    pub fn finish(&self, texts: usize) -> (result: Result<usize, String>)
        ensures
            match result {
                Ok(n) => self.dimensions == Some(n) && self.vectors == texts,
                Err(e) => if self.dimensions is None {
                    e@ == "protocol: BGE response did not contain any vector dimensions"@
                } else {
                    self.vectors != texts && e@ == "protocol: BGE response contains "@
                        + text::decimal(self.vectors as nat) + " vectors for "@ + text::decimal(
                        texts as nat,
                    ) + " texts"@
                },
            },
    {
        match self.dimensions {
            None => Err(
                "protocol: BGE response did not contain any vector dimensions".to_owned(),
            ),
            Some(n) => {
                if self.vectors != texts {
                    let found = text::decimal_string(self.vectors as u64);
                    let wanted = text::decimal_string(texts as u64);
                    let head = text::join3(
                        "protocol: BGE response contains ",
                        &found,
                        " vectors for ",
                    );
                    return Err(text::join3(&head, &wanted, " texts"));
                }
                Ok(n)
            },
        }
    }
}

/// Time has run out for a request before its next chunk.
pub fn check_time(remaining_ms: u64) -> (result: Result<(), String>)
    ensures
        match result {
            Ok(_) => remaining_ms > 0,
            Err(e) => remaining_ms == 0 && e@ == "timeout: BGE classification deadline expired"@,
        },
{
    if remaining_ms == 0 {
        return Err("timeout: BGE classification deadline expired".to_owned());
    }
    Ok(())
}

/// Texts are refused exactly if there are none or more than 512, one of them or
/// all together are longer than allowed.
pub proof fn law_texts_are_held_to_their_limits(texts: Seq<String>, limits: SemanticLimits)
    requires
        bytes_of(texts) <= usize::MAX,
    ensures
        refusal(texts, limits) is None <==> {
            &&& 0 < texts.len() <= 512
            &&& forall|i: int|
                0 <= i < texts.len() ==> encode_utf8((#[trigger] texts[i])@).len()
                    <= limits.text_item_bytes
            &&& bytes_of(texts) <= limits.text_bytes
        },
{
    lemma_first_refusal(texts, limits);
}

proof fn lemma_first_refusal(texts: Seq<String>, limits: SemanticLimits)
    requires
        bytes_of(texts) <= usize::MAX,
    ensures
        first_refusal(texts, limits) is None <==> forall|i: int|
            0 <= i < texts.len() ==> encode_utf8((#[trigger] texts[i])@).len()
                <= limits.text_item_bytes,
    decreases texts.len(),
{
    if texts.len() > 0 {
        let head = texts.drop_last();
        lemma_first_refusal(head, limits);
        assert(forall|i: int| 0 <= i < head.len() ==> #[trigger] head[i] == texts[i]);
        assert(texts[texts.len() - 1] == texts.last());
        if first_refusal(head, limits) is Some {
            let i = choose|i: int|
                0 <= i < head.len() && encode_utf8((#[trigger] head[i])@).len()
                    > limits.text_item_bytes;
            assert(texts[i] == head[i]);
        }
        if first_refusal(texts, limits) is None {
            assert forall|i: int| 0 <= i < texts.len() implies encode_utf8(
                (#[trigger] texts[i])@,
            ).len() <= limits.text_item_bytes by {
                if i < head.len() {
                    assert(head[i] == texts[i]);
                }
            }
        }
    }
}

/// Every chunk but the last is full.
pub proof fn law_all_but_the_last_chunk_are_full<T>(texts: Seq<T>, batch: nat, i: int)
    requires
        batch > 0,
        0 <= i < chunks_of(texts, batch).len() - 1,
    ensures
        chunks_of(texts, batch)[i].len() == batch,
    decreases texts.len(),
{
    if texts.len() > batch {
        let rest = chunks_of(texts.skip(batch as int), batch);
        let all = chunks_of(texts, batch);
        assert(all =~= seq![texts.take(batch as int)] + rest);
        if i > 0 {
            assert(all[i] == rest[i - 1]);
            law_all_but_the_last_chunk_are_full(texts.skip(batch as int), batch, i - 1);
        }
    }
}

/// Answers are taken only if they have a vector for each text, all of the width
/// they tell, and of the width of those before; then they are counted.
pub proof fn law_answers_fit_their_texts(
    before: ChunkAnswers,
    after: ChunkAnswers,
    texts: usize,
    dimensions: usize,
    widths: &Vec<usize>,
    result: Result<(), String>,
)
    requires
        ChunkAnswers::answer_taken(before, after, texts, dimensions, widths, result),
        before.chunks < 512,
        before.vectors + texts <= 512,
    ensures
        result is Ok <==> {
            &&& widths@.len() == texts
            &&& forall|i: int| 0 <= i < widths@.len() ==> #[trigger] widths@[i] == dimensions
            &&& before.dimensions is None || before.dimensions == Some(dimensions)
        },
        result is Ok ==> after.chunks == before.chunks + 1 && after.vectors == before.vectors
            + texts && after.dimensions == Some(dimensions),
        result is Err ==> after == before,
{
    if !mismatched(widths@, dimensions) {
        assert forall|i: int| 0 <= i < widths@.len() implies #[trigger] widths@[i]
            == dimensions by {}
    }
}

/// A batch gives way to a query in front for a quarter of a minute, never past
/// its own deadline, and goes on as soon as none waits.
pub proof fn law_batches_give_way(
    waiting: bool,
    stood_ms: u64,
    remaining_ms: u64,
    poll_ms: u64,
    result: ForegroundStep,
)
    requires
        stood_aside(waiting, stood_ms, remaining_ms, poll_ms, result),
    ensures
        !waiting <==> result is GoOn,
        result is Wait ==> stood_ms < 15_000 && result->ms <= remaining_ms && result->ms <= poll_ms,
        waiting && (stood_ms >= 15_000 || remaining_ms == 0) <==> result is GiveUp,
{
}

} // verus!
