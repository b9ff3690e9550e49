//! The worker that reads texts from images, and the one that asks office
//! programs.
use crate::clip_index::decode_rgb;
use crate::{clip_index, text};
use vstd::prelude::*;
use vstd::string::*;

verus! {

/// The model that texts are read with.
pub const MODEL_ID: &'static str = "ppocrv5-ch-mobile";

/// The settings that the reading worker is started with.
#[derive(Debug)]
pub struct Args {
    pub model_dir: String,
    pub threads: usize,
    pub directml: bool,
    pub verify_models: bool,
}

/// What the settings are.
pub struct ArgsModel {
    pub model_dir: Option<Seq<char>>,
    pub threads: int,
    pub directml: bool,
    pub verify_models: bool,
}

/// The value of decimal digits, if all are.
pub open spec fn digits_value(s: Seq<char>) -> Option<nat>
    decreases s.len(),
{
    if s.len() == 0 {
        Some(0)
    } else {
        match digits_value(s.drop_last()) {
            Some(n) => if '0' <= s.last() <= '9' {
                Some((10 * n + (s.last() as int - '0' as int)) as nat)
            } else {
                None
            },
            None => None,
        }
    }
}

/// The number that a text stands for: digits, perhaps after a plus sign, and
/// not more than a length can say.
pub open spec fn number_of(s: Seq<char>) -> Option<nat> {
    let digits = if s.len() > 0 && s[0] == '+' {
        s.drop_first()
    } else {
        s
    };
    if digits.len() == 0 {
        None
    } else {
        match digits_value(digits) {
            Some(n) => if n <= usize::MAX {
                Some(n)
            } else {
                None
            },
            None => None,
        }
    }
}

proof fn lemma_digits_stay(s: Seq<char>, n: int, limit: nat)
    requires
        0 <= n <= s.len(),
        digits_value(s.take(n)) matches Some(v) ==> v > limit,
    ensures
        digits_value(s) matches Some(v) ==> v > limit,
    decreases s.len() - n,
{
    if n < s.len() {
        assert(s.take(n + 1).drop_last() =~= s.take(n));
        lemma_digits_stay(s, n + 1, limit);
    } else {
        assert(s.take(n) =~= s);
    }
}

/// Reads a number.
pub fn parse_number(s: &str) -> (result: Option<usize>)
    ensures
        match result {
            Some(n) => number_of(s@) == Some(n as nat),
            None => number_of(s@) is None,
        },
{
    let chars = text::chars_of(s);
    let start: usize = if chars.len() > 0 && chars[0] == '+' {
        1
    } else {
        0
    };
    let ghost digits = chars@.skip(start as int);
    proof {
        if start == 1 {
            assert(digits =~= chars@.drop_first());
        } else {
            assert(digits =~= chars@);
        }
    }
    if chars.len() == start {
        return None;
    }
    let mut value: usize = 0;
    let mut i: usize = start;
    assert(digits.take(0) =~= Seq::<char>::empty());
    while i < chars.len()
        invariant
            start <= i <= chars@.len(),
            start <= 1,
            digits == chars@.skip(start as int),
            digits.len() > 0,
            chars@ == s@,
            number_of(s@) == (match digits_value(digits) {
                Some(n) => if n <= usize::MAX {
                    Some(n)
                } else {
                    None
                },
                None => None,
            }),
            digits_value(digits.take(i - start)) == Some(value as nat),
        decreases chars@.len() - i,
    {
        let ghost n = i - start;
        proof {
            assert(digits.take(n + 1).drop_last() =~= digits.take(n));
            assert(digits.take(n + 1).last() == chars@[i as int]);
        }
        let c: char = chars[i];
        if !('0' <= c && c <= '9') {
            proof {
                lemma_digits_stay(digits, n + 1, usize::MAX as nat);
            }
            return None;
        }
        let digit: usize = (c as u8 - 48) as usize;
        let tens: Option<usize> = value.checked_mul(10);
        let next: Option<usize> = match tens {
            Some(t) => t.checked_add(digit),
            None => None,
        };
        match next {
            Some(v) => {
                value = v;
            },
            None => {
                proof {
                    lemma_digits_stay(digits, n + 1, usize::MAX as nat);
                }
                return None;
            },
        }
        i = i + 1;
    }
    assert(digits.take(digits.len() as int) =~= digits);
    Some(value)
}

/// A number of threads that is used: from one to four.
pub open spec fn used_threads(n: nat) -> int {
    if n < 1 {
        1
    } else if n > 4 {
        4
    } else {
        n as int
    }
}

/// The settings after the arguments from here on were read.
pub open spec fn read_args(args: Seq<String>, so_far: ArgsModel) -> Result<ArgsModel, Seq<char>>
    decreases args.len(),
{
    if args.len() == 0 {
        Ok(so_far)
    } else if args[0]@ == "--model-dir"@ {
        if args.len() < 2 {
            Err("--model-dir requires a path"@)
        } else {
            read_args(args.skip(2), ArgsModel { model_dir: Some(args[1]@), ..so_far })
        }
    } else if args[0]@ == "--threads"@ {
        if args.len() < 2 {
            Err("--threads requires a value"@)
        } else {
            match number_of(args[1]@) {
                Some(n) => read_args(
                    args.skip(2),
                    ArgsModel { threads: used_threads(n), ..so_far },
                ),
                None => Err("invalid --threads value"@),
            }
        }
    } else if args[0]@ == "--directml"@ {
        read_args(args.skip(1), ArgsModel { directml: true, ..so_far })
    } else if args[0]@ == "--verify-models"@ {
        read_args(args.skip(1), ArgsModel { verify_models: true, ..so_far })
    } else {
        Err("unknown argument: "@ + args[0]@)
    }
}

/// The settings that are used where nothing is given.
pub open spec fn preset() -> ArgsModel {
    ArgsModel { model_dir: None, threads: 2, directml: false, verify_models: false }
}

impl Args {
    /// What the settings are.
    pub open spec fn model(&self) -> ArgsModel {
        ArgsModel {
            model_dir: Some(self.model_dir@),
            threads: self.threads as int,
            directml: self.directml,
            verify_models: self.verify_models,
        }
    }

    /// Reads the arguments that follow the name of the program.
    pub fn parse(args: &[String]) -> (result: Result<Self, String>)
        ensures
            match read_args(args@, preset()) {
                Ok(found) => if found.model_dir is Some {
                    result matches Ok(settings) && settings.model() == found
                } else {
                    result matches Err(e) && e@ == "--model-dir is required"@
                },
                Err(told) => result matches Err(e) && e@ == told,
            },
    {
        let mut model_dir: Option<String> = None;
        let mut threads: usize = 2;
        let mut directml = false;
        let mut verify_models = false;
        let mut i: usize = 0;
        assert(args@.skip(0) =~= args@);
        while i < args.len()
            invariant
                i <= args@.len(),
                read_args(args@, preset()) == read_args(
                    args@.skip(i as int),
                    ArgsModel {
                        model_dir: match model_dir {
                            Some(dir) => Some(dir@),
                            None => None,
                        },
                        threads: threads as int,
                        directml,
                        verify_models,
                    },
                ),
            decreases args@.len() - i,
        {
            let ghost rest = args@.skip(i as int);
            proof {
                assert(rest[0] == args@[i as int]);
                assert(rest.skip(1) =~= args@.skip(i + 1));
                if i + 1 < args@.len() {
                    assert(rest[1] == args@[i + 1]);
                    assert(rest.skip(2) =~= args@.skip(i + 2));
                }
            }
            if text::same(&args[i], "--model-dir") {
                if args.len() - i < 2 {
                    return Err("--model-dir requires a path".to_owned());
                }
                model_dir = Some(args[i + 1].clone());
                i = i + 2;
            } else if text::same(&args[i], "--threads") {
                if args.len() - i < 2 {
                    return Err("--threads requires a value".to_owned());
                }
                match parse_number(&args[i + 1]) {
                    Some(n) => {
                        threads = if n < 1 {
                            1
                        } else if n > 4 {
                            4
                        } else {
                            n
                        };
                    },
                    None => {
                        return Err("invalid --threads value".to_owned());
                    },
                }
                i = i + 2;
            } else if text::same(&args[i], "--directml") {
                directml = true;
                i = i + 1;
            } else if text::same(&args[i], "--verify-models") {
                verify_models = true;
                i = i + 1;
            } else {
                return Err(text::join2("unknown argument: ", &args[i]));
            }
        }
        match model_dir {
            Some(dir) => Ok(Args { model_dir: dir, threads, directml, verify_models }),
            None => Err("--model-dir is required".to_owned()),
        }
    }

    /// Where the model runs.
    pub fn provider(&self) -> (result: MlProvider)
        ensures
            result == if self.directml {
                MlProvider::DirectMl
            } else {
                MlProvider::Cpu
            },
    {
        if self.directml {
            MlProvider::DirectMl
        } else {
            MlProvider::Cpu
        }
    }
}

/// The count of threads is from one to four, whatever was asked for.
pub proof fn law_threads_are_bounded(args: Seq<String>, so_far: ArgsModel)
    requires
        1 <= so_far.threads <= 4,
    ensures
        read_args(args, so_far) matches Ok(found) ==> 1 <= found.threads <= 4,
    decreases args.len(),
{
    if args.len() > 0 {
        if args[0]@ == "--model-dir"@ && args.len() >= 2 {
            law_threads_are_bounded(
                args.skip(2),
                ArgsModel { model_dir: Some(args[1]@), ..so_far },
            );
        } else if args[0]@ == "--threads"@ && args.len() >= 2 && number_of(args[1]@) is Some {
            law_threads_are_bounded(
                args.skip(2),
                ArgsModel { threads: used_threads(number_of(args[1]@)->0), ..so_far },
            );
        } else if args[0]@ == "--directml"@ {
            law_threads_are_bounded(args.skip(1), ArgsModel { directml: true, ..so_far });
        } else if args[0]@ == "--verify-models"@ {
            law_threads_are_bounded(args.skip(1), ArgsModel { verify_models: true, ..so_far });
        }
    }
}

/// Where a model runs.
#[derive(Debug, Clone, Copy, PartialEq, Eq, Structural)]
pub enum MlProvider {
    Cpu,
    DirectMl,
}

impl MlProvider {
    pub fn as_str(self) -> (result: &'static str)
        ensures
            result@ == match self {
                MlProvider::Cpu => "Cpu"@,
                MlProvider::DirectMl => "DirectMl"@,
            },
    {
        match self {
            MlProvider::Cpu => "Cpu",
            MlProvider::DirectMl => "DirectMl",
        }
    }
}

/// What is printed once the models were checked.
pub fn verify_report(provider: MlProvider) -> (result: String)
    ensures
        result@ == "{\"status\":\"ok\",\"model_id\":\"ppocrv5-ch-mobile\",\"provider\":\""@ + (
        match provider {
            MlProvider::Cpu => "Cpu"@,
            MlProvider::DirectMl => "DirectMl"@,
        }) + "\"}"@,
{
    text::join3(
        "{\"status\":\"ok\",\"model_id\":\"ppocrv5-ch-mobile\",\"provider\":\"",
        provider.as_str(),
        "\"}",
    )
}

/// A request to the reading worker. An image comes with its bytes.
#[derive(Debug)]
pub enum MlRequest {
    Ping { request_id: u64 },
    Shutdown { request_id: u64 },
    Ocr { request_id: u64, timeout_ms: u64, image: Vec<u8> },
}

/// What the reading worker does about a request.
#[derive(Debug)]
pub enum MlStep {
    /// It answers that it is there.
    Pong { request_id: u64 },
    /// It answers that it ends, and ends.
    ShuttingDown { request_id: u64 },
    /// It answers that something is wrong.
    Refuse { request_id: u64, kind: &'static str, message: String },
    /// It reads the texts from this image, in so much time.
    Read {
        request_id: u64,
        timeout_ms: u64,
        width: u32,
        height: u32,
        rgb: Vec<u8>,
    },
}

/// What the reading worker does about an image that was decoded, or could not
/// be. It gives itself some time at least.
pub fn image_step(
    request_id: u64,
    timeout_ms: u64,
    decoded: Result<(u32, u32, Vec<u8>), String>,
) -> (result: MlStep)
    ensures
        match (decoded, result) {
            (
                Ok(image),
                MlStep::Read { request_id: id, timeout_ms: time, width, height, rgb },
            ) => {
                &&& id == request_id
                &&& time == if timeout_ms < 1 {
                    1
                } else {
                    timeout_ms
                }
                &&& image == (width, height, rgb)
            },
            (Err(e), MlStep::Refuse { request_id: id, kind, message }) => id == request_id && kind@
                == "image_decode"@ && message == e,
            _ => false,
        },
{
    match decoded {
        Ok((width, height, rgb)) => MlStep::Read {
            request_id,
            timeout_ms: if timeout_ms < 1 {
                1
            } else {
                timeout_ms
            },
            width,
            height,
            rgb,
        },
        Err(message) => MlStep::Refuse { request_id, kind: "image_decode", message },
    }
}

/// What the reading worker does about a request.
pub fn handle_request(request: MlRequest) -> (result: MlStep)
    ensures
        match request {
            MlRequest::Ping { request_id } => result == (MlStep::Pong { request_id }),
            MlRequest::Shutdown { request_id } => result == (MlStep::ShuttingDown { request_id }),
            MlRequest::Ocr { request_id, timeout_ms, image } => match (
                clip_index::decoded_rgb(image@),
                result,
            ) {
                (
                    Ok(decoded),
                    MlStep::Read { request_id: id, timeout_ms: time, width, height, rgb },
                ) => {
                    &&& id == request_id
                    &&& time == if timeout_ms < 1 {
                        1
                    } else {
                        timeout_ms
                    }
                    &&& decoded == (width, height, rgb@)
                },
                (Err(e), MlStep::Refuse { request_id: id, kind, message }) => id == request_id
                    && kind@ == "image_decode"@ && message@ == e,
                _ => false,
            },
        },
{
    match request {
        MlRequest::Ping { request_id } => MlStep::Pong { request_id },
        MlRequest::Shutdown { request_id } => MlStep::ShuttingDown { request_id },
        MlRequest::Ocr { request_id, timeout_ms, image } => image_step(
            request_id,
            timeout_ms,
            decode_rgb(&image),
        ),
    }
}

/// Why texts could not be read from an image.
#[derive(Debug, Clone, Copy, PartialEq, Eq, Structural)]
pub enum OcrFailure {
    TimedOut,
    Cancelled,
    QueueFull,
    WorkerPanicked,
    WorkerStopped,
    Ocr,
}

/// The name of a failure, as it is told.
pub fn failure_kind(failure: OcrFailure) -> (result: &'static str)
    ensures
        result@ == match failure {
            OcrFailure::TimedOut => "timeout"@,
            OcrFailure::Cancelled => "cancelled"@,
            OcrFailure::QueueFull => "queue_full"@,
            OcrFailure::WorkerPanicked => "worker_panic"@,
            OcrFailure::WorkerStopped => "worker_stopped"@,
            OcrFailure::Ocr => "ocr"@,
        },
{
    match failure {
        OcrFailure::TimedOut => "timeout",
        OcrFailure::Cancelled => "cancelled",
        OcrFailure::QueueFull => "queue_full",
        OcrFailure::WorkerPanicked => "worker_panic",
        OcrFailure::WorkerStopped => "worker_stopped",
        OcrFailure::Ocr => "ocr",
    }
}

/// Why an office document was not found.
#[derive(Debug)]
pub enum OfficeFailure {
    /// The office program said so.
    Told { kind: String, message: String },
    /// The worker broke off.
    Panicked,
}

/// What is answered where an office document was not found: the kind and the
/// message, cut to a length that is sent.
pub fn office_failure(failure: OfficeFailure) -> (result: (String, String))
    ensures
        match failure {
            OfficeFailure::Told { kind, message } => result.0 == kind && result.1@
                == text::take_chars(message@, 4096),
            OfficeFailure::Panicked => result.0@ == "panic"@ && result.1@
                == "Office automation worker panicked while resolving a document"@,
        },
{
    match failure {
        OfficeFailure::Told { kind, message } => (kind, text::prefix(&message, 4096)),
        OfficeFailure::Panicked => (
            "panic".to_owned(),
            "Office automation worker panicked while resolving a document".to_owned(),
        ),
    }
}

/// What a row of digits says is its decimal number, a plus sign before it counts
/// for nothing, and what does not fit or has other characters is no number.
pub proof fn law_numbers_are_read_as_written(n: nat)
    ensures
        n <= usize::MAX ==> number_of(text::decimal(n)) == Some(n),
        n <= usize::MAX ==> number_of(seq!['+'] + text::decimal(n)) == Some(n),
        n > usize::MAX ==> number_of(text::decimal(n)) is None,
{
    text::law_decimals_tell_the_number(n);
    lemma_decimal_digits(n);
    let s = text::decimal(n);
    assert(s[0] != '+') by {
        assert(48 <= s[0] as int <= 57);
    }
    assert((seq!['+'] + s).drop_first() =~= s);
}

proof fn lemma_decimal_digits(n: nat)
    ensures
        digits_value(text::decimal(n)) == Some(n),
    decreases n,
{
    let s = text::decimal(n);
    if n < 10 {
        assert(s.drop_last() =~= Seq::<char>::empty());
        assert(digits_value(s.drop_last()) == Some(0nat));
    } else {
        lemma_decimal_digits(n / 10);
        assert(s.drop_last() =~= text::decimal(n / 10));
    }
}

/// What is read from the arguments, one after another: a flag switches something
/// on, a value stands for what it follows, and the last of two values holds.
pub proof fn law_arguments_are_read_in_order(
    flag: String,
    value: String,
    rest: Seq<String>,
    so_far: ArgsModel,
)
    ensures
        flag@ == "--directml"@ ==> read_args(seq![flag] + rest, so_far) == read_args(
            rest,
            ArgsModel { directml: true, ..so_far },
        ),
        flag@ == "--verify-models"@ ==> read_args(seq![flag] + rest, so_far) == read_args(
            rest,
            ArgsModel { verify_models: true, ..so_far },
        ),
        flag@ == "--model-dir"@ ==> read_args(seq![flag, value] + rest, so_far) == read_args(
            rest,
            ArgsModel { model_dir: Some(value@), ..so_far },
        ),
        flag@ == "--model-dir"@ || flag@ == "--threads"@ ==> read_args(seq![flag], so_far) is Err,
        read_args(Seq::empty(), so_far) == Ok::<ArgsModel, Seq<char>>(so_far),
{
    reveal_strlit("--directml");
    reveal_strlit("--verify-models");
    reveal_strlit("--model-dir");
    reveal_strlit("--threads");
    assert("--directml"@.len() == 10 && "--verify-models"@.len() == 15);
    assert("--model-dir"@.len() == 11 && "--threads"@.len() == 9);
    assert((seq![flag] + rest).skip(1) =~= rest);
    assert((seq![flag, value] + rest).skip(2) =~= rest);
    assert((seq![flag] + rest)[0] == flag);
    assert((seq![flag, value] + rest)[0] == flag && (seq![flag, value] + rest)[1] == value);
}

/// The worker uses as many threads as asked for, but at least one and at most
/// four.
pub proof fn law_threads_are_those_asked_for(n: nat)
    ensures
        1 <= n <= 4 ==> used_threads(n) == n,
        n < 1 ==> used_threads(n) == 1,
        n > 4 ==> used_threads(n) == 4,
        preset().threads == 2 && !preset().directml && !preset().verify_models,
{
}

} // verus!
