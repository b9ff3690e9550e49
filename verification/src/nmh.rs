//! The native messaging host: between the browser extension and the
//! application.
use crate::codec::{push_bytes, push_le, read_le};
use crate::digest::{hex_encode, sha256_hex};
use crate::{codec, digest, json, text};
use vstd::prelude::*;
use vstd::string::*;

verus! {

/// The version of the protocol on the data pipe.
pub const IPC_PROTOCOL_VERSION: u32 = 2;

/// The longest message on the data pipe.
pub const IPC_MAX_MESSAGE_BYTES: usize = 16 * 1024 * 1024;

/// The longest message from the extension.
pub const NM_MAX_MESSAGE_BYTES: usize = 10 * 1024 * 1024;

/// The browser that started the host.
#[derive(Debug)]
pub struct BrowserInfo {
    pub pid: u32,
    pub exe_name: String,
    pub exe_path: String,
}

// ---------------------------------------------------------------------------
// The browser among the ancestors
// ---------------------------------------------------------------------------
/// A running program.
#[derive(Debug)]
pub struct ProcessEntry {
    pub pid: u32,
    pub parent: u32,
    /// Its name, in lower case.
    pub name: String,
}

impl ProcessEntry {
    pub fn new(pid: u32, parent: u32, exe_file: &str) -> (result: Self)
        ensures
            result.pid == pid,
            result.parent == parent,
            result.name@ == text::lowercase_of(exe_file@),
    {
        ProcessEntry { pid, parent, name: text::to_lowercase(exe_file) }
    }
}

/// What is known of a program: where it is listed more than once, the last
/// entry counts.
pub open spec fn entry_of(processes: Seq<ProcessEntry>, pid: u32) -> Option<ProcessEntry>
    decreases processes.len(),
{
    if processes.len() == 0 {
        None
    } else if processes.last().pid == pid {
        Some(processes.last())
    } else {
        entry_of(processes.drop_last(), pid)
    }
}

fn find_entry(processes: &Vec<ProcessEntry>, pid: u32) -> (result: Option<&ProcessEntry>)
    ensures
        match result {
            Some(entry) => entry_of(processes@, pid) == Some(*entry),
            None => entry_of(processes@, pid) is None,
        },
{
    let mut i: usize = processes.len();
    assert(processes@.take(i as int) =~= processes@);
    while i > 0
        invariant
            i <= processes@.len(),
            entry_of(processes@, pid) == entry_of(processes@.take(i as int), pid),
        decreases i,
    {
        assert(processes@.take(i as int).drop_last() =~= processes@.take(i - 1));
        assert(processes@.take(i as int).last() == processes@[i - 1]);
        i = i - 1;
        if processes[i].pid == pid {
            return Some(&processes[i]);
        }
    }
    None
}

/// The ancestors of a program, the nearest first, as far as they are known, and
/// no more than `limit` of them.
pub open spec fn ancestors_of(processes: Seq<ProcessEntry>, pid: u32, limit: nat) -> Seq<
    (u32, Seq<char>),
>
    decreases limit,
{
    if limit == 0 {
        Seq::empty()
    } else {
        match entry_of(processes, pid) {
            Some(entry) => if entry.parent == 0 || entry.parent == pid {
                Seq::empty()
            } else {
                match entry_of(processes, entry.parent) {
                    Some(parent) => seq![(entry.parent, parent.name@)] + ancestors_of(
                        processes,
                        entry.parent,
                        (limit - 1) as nat,
                    ),
                    None => Seq::empty(),
                }
            },
            None => Seq::empty(),
        }
    }
}

/// The texts of a chain of ancestors.
pub open spec fn chain_view(chain: Seq<(u32, String)>) -> Seq<(u32, Seq<char>)> {
    chain.map_values(|a: (u32, String)| (a.0, a.1@))
}

/// The ancestors of a program, the nearest first.
pub fn ancestor_chain(processes: &Vec<ProcessEntry>, current_pid: u32) -> (result: Vec<
    (u32, String),
>)
    ensures
        chain_view(result@) == ancestors_of(processes@, current_pid, 16),
{
    let mut ancestors: Vec<(u32, String)> = Vec::new();
    let mut pid: u32 = current_pid;
    let mut left: u32 = 16;
    assert(chain_view(ancestors@) + ancestors_of(processes@, pid, 16) =~= ancestors_of(
        processes@,
        current_pid,
        16,
    ));
    while left > 0
        invariant
            left <= 16,
            chain_view(ancestors@) + ancestors_of(processes@, pid, left as nat) == ancestors_of(
                processes@,
                current_pid,
                16,
            ),
        decreases left,
    {
        let ghost before = chain_view(ancestors@);
        assert(before + Seq::<(u32, Seq<char>)>::empty() =~= before);
        let parent_pid: u32 = match find_entry(processes, pid) {
            Some(entry) => entry.parent,
            None => {
                return ancestors;
            },
        };
        if parent_pid == 0 || parent_pid == pid {
            return ancestors;
        }
        match find_entry(processes, parent_pid) {
            Some(parent) => {
                ancestors.push((parent_pid, parent.name.clone()));
                proof {
                    let rest = ancestors_of(processes@, parent_pid, (left - 1) as nat);
                    assert(chain_view(ancestors@) =~= before.push((parent_pid, parent.name@)));
                    assert(before.push((parent_pid, parent.name@)) + rest =~= before + (seq![
                        (parent_pid, parent.name@),
                    ] + rest));
                }
                pid = parent_pid;
            },
            None => {
                return ancestors;
            },
        }
        left = left - 1;
    }
    assert(chain_view(ancestors@) + ancestors_of(processes@, pid, 0) =~= chain_view(ancestors@));
    ancestors
}

/// The texts are the same but for the case of ASCII letters.
pub open spec fn same_but_case(a: Seq<char>, b: Seq<char>) -> bool {
    text::lower_ascii(a) == text::lower_ascii(b)
}

/// Compares texts without regard to the case of ASCII letters.
pub fn eq_ignore_ascii_case(a: &str, b: &str) -> (result: bool)
    ensures
        result == same_but_case(a@, b@),
{
    let x = text::to_lower_ascii(a);
    let y = text::to_lower_ascii(b);
    text::same(&x, &y)
}

/// The shell that browsers start the host through.
pub open spec fn launcher(exe_name: Seq<char>) -> bool {
    same_but_case(exe_name, "cmd.exe"@) || same_but_case(exe_name, "cmd"@)
}

/// The program is the shell that browsers start the host through.
pub fn is_native_messaging_launcher_wrapper(exe_name: &str) -> (result: bool)
    ensures
        result == launcher(exe_name@),
{
    eq_ignore_ascii_case(exe_name, "cmd.exe") || eq_ignore_ascii_case(exe_name, "cmd")
}

/// The ancestor is passed over: it is the shell, or has no name.
pub open spec fn passed_over(name: Seq<char>) -> bool {
    name.len() == 0 || launcher(name)
}

/// The ancestors from `first` to `last` are one browser: all before are passed
/// over, and what follows has another name.
pub open spec fn browser_run(ancestors: Seq<(u32, Seq<char>)>, first: int, last: int) -> bool {
    &&& 0 <= first <= last < ancestors.len()
    &&& forall|i: int| 0 <= i < first ==> passed_over((#[trigger] ancestors[i]).1)
    &&& !passed_over(ancestors[first].1)
    &&& forall|i: int|
        first < i <= last ==> same_but_case((#[trigger] ancestors[i]).1, ancestors[first].1)
    &&& last + 1 < ancestors.len() ==> !same_but_case(ancestors[last + 1].1, ancestors[first].1)
}

/// Selects the main process of the browser from a chain of ancestors, the
/// nearest first: the last of the consecutive processes with the name of the
/// first that is not passed over.
pub fn select_browser_ancestor(ancestors: &[(u32, String)]) -> (result: Option<(u32, String)>)
    ensures
        match result {
            Some((pid, name)) => exists|first: int, last: int| #[trigger]
                browser_run(chain_view(ancestors@), first, last) && pid == ancestors@[last].0
                    && name@ == ancestors@[first].1@,
            None => forall|i: int|
                0 <= i < ancestors@.len() ==> passed_over((#[trigger] ancestors@[i]).1@),
        },
{
    let mut first: usize = 0;
    while first < ancestors.len()
        invariant
            first <= ancestors@.len(),
            forall|i: int| 0 <= i < first ==> passed_over((#[trigger] ancestors@[i]).1@),
        decreases ancestors@.len() - first,
    {
        let name = &ancestors[first].1;
        if text::chars_of(name).len() > 0 && !is_native_messaging_launcher_wrapper(name) {
            let mut last: usize = first;
            while last + 1 < ancestors.len() && eq_ignore_ascii_case(
                &ancestors[last + 1].1,
                &ancestors[first].1,
            )
                invariant
                    first <= last < ancestors@.len() <= usize::MAX,
                    forall|i: int|
                        first < i <= last ==> same_but_case(
                            (#[trigger] ancestors@[i]).1@,
                            ancestors@[first as int].1@,
                        ),
                decreases ancestors@.len() - last,
            {
                last = last + 1;
            }
            proof {
                let chain = chain_view(ancestors@);
                assert forall|i: int| 0 <= i < first implies passed_over((#[trigger] chain[i]).1) by {
                    assert(passed_over(ancestors@[i].1@));
                }
                assert forall|i: int| first < i <= last implies same_but_case(
                    (#[trigger] chain[i]).1,
                    chain[first as int].1,
                ) by {
                    assert(same_but_case(ancestors@[i].1@, ancestors@[first as int].1@));
                }
                assert(browser_run(chain, first as int, last as int));
            }
            return Some((ancestors[last].0, ancestors[first].1.clone()));
        }
        first = first + 1;
    }
    None
}

/// Only one run of ancestors can be the browser.
pub proof fn law_one_browser(
    ancestors: Seq<(u32, Seq<char>)>,
    first: int,
    last: int,
    other_first: int,
    other_last: int,
)
    requires
        browser_run(ancestors, first, last),
        browser_run(ancestors, other_first, other_last),
    ensures
        first == other_first,
        last == other_last,
{
    if first < other_first {
        assert(passed_over(ancestors[first].1));
    }
    if other_first < first {
        assert(passed_over(ancestors[other_first].1));
    }
    if last < other_last {
        assert(same_but_case(ancestors[last + 1].1, ancestors[first].1));
    }
    if other_last < last {
        assert(same_but_case(ancestors[other_last + 1].1, ancestors[first].1));
    }
}

/// The process of the browser that started the host, and its name.
pub fn detect_browser(processes: &Vec<ProcessEntry>, current_pid: u32) -> (result: Option<
    (u32, String),
>)
    ensures
        ({
            let ancestors = ancestors_of(processes@, current_pid, 16);
            match result {
                Some((pid, name)) => exists|first: int, last: int| #[trigger]
                    browser_run(ancestors, first, last) && pid == ancestors[last].0 && name@
                        == ancestors[first].1,
                None => forall|i: int|
                    0 <= i < ancestors.len() ==> passed_over((#[trigger] ancestors[i]).1),
            }
        }),
{
    let chain = ancestor_chain(processes, current_pid);
    let selected = select_browser_ancestor(&chain);
    proof {
        let ancestors = ancestors_of(processes@, current_pid, 16);
        if selected is None {
            assert forall|i: int| 0 <= i < ancestors.len() implies passed_over(
                (#[trigger] ancestors[i]).1,
            ) by {
                assert(passed_over(chain@[i].1@));
            }
        }
    }
    selected
}

// ---------------------------------------------------------------------------
// Names of pipes, and the token
// ---------------------------------------------------------------------------
/// The token in the token file, if there is one.
pub fn read_auth_token(content: Option<&str>) -> (result: Option<String>)
    ensures
        match result {
            Some(token) => {
                &&& content is Some
                &&& token@ == text::trimmed(content->0@)
                &&& token@.len() > 0
            },
            None => content is Some ==> text::trimmed(content->0@).len() == 0,
        },
{
    match content {
        Some(t) => {
            let token = text::trim(t);
            if text::chars_of(&token).len() > 0 {
                Some(token)
            } else {
                None
            }
        },
        None => None,
    }
}

/// `rand::random`: sixteen bytes by chance.
#[verifier::external_body]
fn random_bytes() -> (result: Vec<u8>)
    ensures
        result@.len() == 16,
{
    rand::random::<[u8; 16]>().to_vec()
}

/// What the names of command pipes begin with.
pub const CMD_PIPE_PREFIX: &'static str = "\\\\.\\pipe\\carbon_nmh_cmd_r_";

/// What the names of data pipes begin with.
pub const DATA_PIPE_PREFIX: &'static str = "\\\\.\\pipe\\carbon_nmh_";

/// The name of a command pipe.
pub fn cmd_pipe_name(bytes: &[u8]) -> (result: String)
    ensures
        result@ == CMD_PIPE_PREFIX@ + digest::hex_text(bytes@),
{
    let suffix = hex_encode(bytes);
    text::join2(CMD_PIPE_PREFIX, &suffix)
}

/// A name for a command pipe, by chance: no two hosts share one.
pub fn generate_cmd_pipe_name() -> (result: String)
    ensures
        exists|bytes: Seq<u8>|
            bytes.len() == 16 && result@ == CMD_PIPE_PREFIX@ + #[trigger] digest::hex_text(bytes),
{
    let bytes = random_bytes();
    cmd_pipe_name(&bytes)
}

/// Names of command pipes that were made of different bytes differ.
pub proof fn law_pipe_names_differ(a: Seq<u8>, b: Seq<u8>)
    requires
        a != b,
    ensures
        CMD_PIPE_PREFIX@ + digest::hex_text(a) != CMD_PIPE_PREFIX@ + digest::hex_text(b),
{
    let x = CMD_PIPE_PREFIX@ + digest::hex_text(a);
    let y = CMD_PIPE_PREFIX@ + digest::hex_text(b);
    if x == y {
        let n = CMD_PIPE_PREFIX@.len() as int;
        assert(x.skip(n) =~= digest::hex_text(a));
        assert(y.skip(n) =~= digest::hex_text(b));
        digest::law_hex_tells_apart(a, b);
    }
}

/// The name of the data pipe of a user.
pub open spec fn data_pipe_name(sid: Seq<char>) -> Seq<char> {
    DATA_PIPE_PREFIX@ + digest::hex_text(
        digest::sha256_of(vstd::utf8::encode_utf8(sid + "carbonpaper_nmh_salt"@)),
    ).take(16)
}

/// The name of the data pipe of a user, who is told by the system.
pub fn compute_nmh_pipe_name(sid: Result<String, String>) -> (result: Result<String, String>)
    ensures
        match (sid, result) {
            (Ok(user), Ok(name)) => name@ == data_pipe_name(user@),
            (Err(e), Err(told)) => e == told,
            _ => false,
        },
{
    match sid {
        Ok(user) => {
            let salted = text::join2(&user, "carbonpaper_nmh_salt");
            let hex = sha256_hex(salted.as_str().as_bytes());
            let head = text::prefix(&hex, 16);
            Ok(text::join2(DATA_PIPE_PREFIX, &head))
        },
        Err(e) => Err(e),
    }
}

// ---------------------------------------------------------------------------
// Frames
// ---------------------------------------------------------------------------
/// A message with its length before it, in four bytes.
pub open spec fn framed(body: Seq<u8>) -> Seq<u8> {
    codec::le_bytes(body.len(), 4) + body
}

fn frame(body: &[u8]) -> (result: Vec<u8>)
    ensures
        result@ == framed(body@),
{
    let mut out: Vec<u8> = Vec::new();
    push_le(&mut out, body.len() as u64, 4);
    push_bytes(&mut out, body);
    assert(out@ =~= framed(body@));
    out
}

/// A message to the extension.
pub fn nm_message(body: &[u8]) -> (result: Vec<u8>)
    ensures
        result@ == framed(body@),
{
    frame(body)
}

/// The length of a message of the extension, by its first four bytes.
pub open spec fn message_length_read(head: &[u8], result: Result<Option<usize>, String>) -> bool {
    ({
        let length = codec::le_value(head@);
        match result {
            Ok(Some(n)) => n == length && 0 < length <= NM_MAX_MESSAGE_BYTES,
            Ok(None) => length == 0,
            Err(e) => length > NM_MAX_MESSAGE_BYTES && e@ == "Message too large"@,
        }
    })
}

/// The length that a message from the extension has, by its first four bytes.
/// An empty message ends the conversation.
pub fn nm_message_length(head: &[u8]) -> (result: Result<Option<usize>, String>)
    requires
        head@.len() == 4,
    ensures
        message_length_read(head, result),
{
    assert(head@.subrange(0, 4) =~= head@);
    let length: u64 = read_le(head, 0, 4);
    if length == 0 {
        Ok(None)
    } else if length > NM_MAX_MESSAGE_BYTES as u64 {
        Err("Message too large".to_owned())
    } else {
        Ok(Some(length as usize))
    }
}

/// What a request that is too long is refused with.
pub open spec fn too_large_text(length: nat) -> Seq<char> {
    "IPC request too large: "@ + text::decimal(length) + " bytes (max 16777216)"@
}

/// A request on the data pipe.
pub fn write_pipe_frame(body: &[u8]) -> (result: Result<Vec<u8>, String>)
    ensures
        match result {
            Ok(bytes) => body@.len() <= IPC_MAX_MESSAGE_BYTES && bytes@ == framed(body@),
            Err(e) => body@.len() > IPC_MAX_MESSAGE_BYTES && e@ == too_large_text(body@.len()),
        },
{
    if body.len() > IPC_MAX_MESSAGE_BYTES {
        let length = text::decimal_string(body.len() as u64);
        return Err(text::join3("IPC request too large: ", &length, " bytes (max 16777216)"));
    }
    Ok(frame(body))
}

/// What a frame with a wrong length is refused with.
pub open spec fn bad_length_text(length: nat) -> Seq<char> {
    "Invalid IPC v2 frame length: "@ + text::decimal(length) + " (max 16777216)"@
}

/// The length of an answer on the data pipe, by its first four bytes.
pub open spec fn frame_length_read(head: &[u8], result: Result<usize, String>) -> bool {
    ({
        let length = codec::le_value(head@);
        match result {
            Ok(n) => n == length && 0 < length <= IPC_MAX_MESSAGE_BYTES,
            Err(e) => (length == 0 || length > IPC_MAX_MESSAGE_BYTES) && e@ == bad_length_text(
                length,
            ),
        }
    })
}

/// The length of an answer on the data pipe, by its first four bytes.
pub fn read_pipe_frame(head: &[u8]) -> (result: Result<usize, String>)
    requires
        head@.len() == 4,
    ensures
        frame_length_read(head, result),
{
    assert(head@.subrange(0, 4) =~= head@);
    let length: u64 = read_le(head, 0, 4);
    if length == 0 || length > IPC_MAX_MESSAGE_BYTES as u64 {
        let shown = text::decimal_string(length);
        return Err(text::join3("Invalid IPC v2 frame length: ", &shown, " (max 16777216)"));
    }
    Ok(length as usize)
}

/// A frame tells the length of its message, and the message follows: what was
/// written is what is read.
pub proof fn law_frames_read_back(body: Seq<u8>)
    requires
        body.len() <= IPC_MAX_MESSAGE_BYTES,
    ensures
        framed(body).len() == 4 + body.len(),
        codec::le_value(framed(body).take(4)) == body.len(),
        framed(body).skip(4) == body,
{
    codec::lemma_le_len(body.len(), 4);
    codec::lemma_spans();
    codec::law_le_reads_back(body.len(), 4);
    assert(framed(body).take(4) =~= codec::le_bytes(body.len(), 4));
    assert(framed(body).skip(4) =~= body);
}

/// Why no answer came over the data pipe.
#[derive(Debug, Clone, Copy, PartialEq, Eq, Structural)]
pub enum PipeFailure {
    Serialization,
    Connect,
    Write,
    Flush,
    Read,
    Response,
}

/// What a failure on the data pipe is told as.
pub open spec fn failure_text(failure: PipeFailure, pipe: Seq<char>, detail: Seq<char>) -> Seq<char> {
    match failure {
        PipeFailure::Serialization => "Serialization failed: "@ + detail,
        PipeFailure::Connect => "Cannot connect to CarbonPaper (pipe "@ + pipe + "): "@ + detail,
        PipeFailure::Write => "Pipe write failed: "@ + detail,
        PipeFailure::Flush => "Pipe flush failed: "@ + detail,
        PipeFailure::Read => "Pipe read failed: "@ + detail,
        PipeFailure::Response => "Invalid response JSON: "@ + detail,
    }
}

/// What a failure on the data pipe is told as.
pub fn pipe_failure_text(failure: PipeFailure, pipe: &str, detail: &str) -> (result: String)
    ensures
        result@ == failure_text(failure, pipe@, detail@),
{
    match failure {
        PipeFailure::Serialization => text::join2("Serialization failed: ", detail),
        PipeFailure::Connect => {
            let head = text::join3("Cannot connect to CarbonPaper (pipe ", pipe, "): ");
            text::join2(&head, detail)
        },
        PipeFailure::Write => text::join2("Pipe write failed: ", detail),
        PipeFailure::Flush => text::join2("Pipe flush failed: ", detail),
        PipeFailure::Read => text::join2("Pipe read failed: ", detail),
        PipeFailure::Response => text::join2("Invalid response JSON: ", detail),
    }
}

// ---------------------------------------------------------------------------
// Registration
// ---------------------------------------------------------------------------
/// The request by which a host makes itself known.
#[derive(Debug)]
pub struct RegisterRequest {
    pub command: &'static str,
    pub ipc_protocol_version: u32,
    pub auth_token: String,
    pub browser_pid: u32,
    pub browser_exe_path: String,
    pub browser_exe_name: String,
    pub nmh_pid: u32,
    pub cmd_pipe_name: String,
}

/// The request by which a host takes its leave.
#[derive(Debug)]
pub struct UnregisterRequest {
    pub command: &'static str,
    pub ipc_protocol_version: u32,
    pub auth_token: String,
    pub nmh_pid: u32,
    pub cmd_pipe_name: String,
}

/// The request by which a host makes itself known.
pub fn build_register_request(
    auth_token: &str,
    cmd_pipe_name: &str,
    browser: &BrowserInfo,
    nmh_pid: u32,
) -> (result: RegisterRequest)
    ensures
        result.command@ == "register_nmh"@,
        result.ipc_protocol_version == IPC_PROTOCOL_VERSION,
        result.auth_token@ == auth_token@,
        result.browser_pid == browser.pid,
        result.browser_exe_path@ == browser.exe_path@,
        result.browser_exe_name@ == browser.exe_name@,
        result.nmh_pid == nmh_pid,
        result.cmd_pipe_name@ == cmd_pipe_name@,
{
    RegisterRequest {
        command: "register_nmh",
        ipc_protocol_version: IPC_PROTOCOL_VERSION,
        auth_token: auth_token.to_owned(),
        browser_pid: browser.pid,
        browser_exe_path: browser.exe_path.clone(),
        browser_exe_name: browser.exe_name.clone(),
        nmh_pid,
        cmd_pipe_name: cmd_pipe_name.to_owned(),
    }
}

/// The request by which a host takes its leave.
pub fn build_unregister_request(auth_token: &str, cmd_pipe_name: &str, nmh_pid: u32) -> (result:
    UnregisterRequest)
    ensures
        result.command@ == "unregister_nmh"@,
        result.ipc_protocol_version == IPC_PROTOCOL_VERSION,
        result.auth_token@ == auth_token@,
        result.nmh_pid == nmh_pid,
        result.cmd_pipe_name@ == cmd_pipe_name@,
{
    UnregisterRequest {
        command: "unregister_nmh",
        ipc_protocol_version: IPC_PROTOCOL_VERSION,
        auth_token: auth_token.to_owned(),
        nmh_pid,
        cmd_pipe_name: cmd_pipe_name.to_owned(),
    }
}

/// What is reported to the extension of a registration.
#[derive(Debug)]
pub enum RegistrationReport {
    /// Nothing changed.
    Silent,
    /// The host is registered now.
    Registered,
    /// It could not be registered.
    Failed { error: String },
}

/// The registration of a host, and the failure that was reported last.
#[derive(Debug)]
pub struct Registration {
    pub registered: bool,
    pub last_error: Option<String>,
}

/// What an answer to a registration comes to.
pub fn registration_result(answer: Option<(Option<&str>, Option<&str>)>) -> (result: Result<
    (),
    String,
>)
    ensures
        match answer {
            None => result is Err && result->Err_0@
                == "CarbonPaper not running yet (no auth token)"@,
            Some((status, error)) => if status is Some && status->0@ == "success"@ {
                result is Ok
            } else {
                result is Err && result->Err_0@ == match error {
                    Some(e) => e@,
                    None => "unknown error"@,
                }
            },
        },
{
    match answer {
        None => Err("CarbonPaper not running yet (no auth token)".to_owned()),
        Some((status, error)) => {
            if succeeded(status) {
                return Ok(());
            }
            match error {
                Some(e) => Err(e.to_owned()),
                None => Err("unknown error".to_owned()),
            }
        },
    }
}

fn succeeded(status: Option<&str>) -> (result: bool)
    ensures
        result == (status is Some && status->0@ == "success"@),
{
    match status {
        Some(s) => text::same(s, "success"),
        None => false,
    }
}

impl Registration {
    /// This failure was the last one that was reported.
    pub open spec fn reported(&self, error: Seq<char>) -> bool {
        self.last_error is Some && self.last_error->0@ == error
    }

    pub fn new() -> (result: Self)
        ensures
            !result.registered,
            result.last_error is None,
    {
        Registration { registered: false, last_error: None }
    }

    /// What an attempt to register comes to, and what is told of it.
    pub open spec fn attempt_noted(
        before: Self,
        after: Self,
        was_registered: bool,
        attempt: Result<(), String>,
        result: RegistrationReport,
    ) -> bool {
        &&& after.registered == attempt is Ok
        &&& match attempt {
            Ok(_) => if was_registered {
                result is Silent && after.last_error == before.last_error
            } else {
                result is Registered && after.last_error is None
            },
            Err(e) => if before.reported(e@) {
                result is Silent && after.last_error == before.last_error
            } else {
                &&& result is Failed
                &&& result->error@ == e@
                &&& after.reported(e@)
            },
        }
    }

    /// An attempt is over. `was_registered` tells how things stood when it
    /// began. A failure that was reported already is not reported again.
    pub fn attempted(&mut self, was_registered: bool, attempt: Result<(), String>) -> (result:
        RegistrationReport)
        ensures
            Self::attempt_noted(*old(self), *final(self), was_registered, attempt, result),
    {
        match attempt {
            Ok(_) => {
                self.registered = true;
                if was_registered {
                    RegistrationReport::Silent
                } else {
                    self.last_error = None;
                    RegistrationReport::Registered
                }
            },
            Err(e) => {
                self.registered = false;
                let known = match &self.last_error {
                    Some(last) => text::same(last, &e),
                    None => false,
                };
                if known {
                    RegistrationReport::Silent
                } else {
                    self.last_error = Some(e.clone());
                    RegistrationReport::Failed { error: e }
                }
            },
        }
    }

    /// How long to wait for the next attempt, in seconds.
    pub fn delay_secs(&self) -> (result: u64)
        ensures
            result == if self.registered {
                60u64
            } else {
                3
            },
    {
        if self.registered {
            60
        } else {
            3
        }
    }

    /// The host takes its leave if it is registered and there is a token.
    pub fn must_unregister(&self, token: &Option<String>) -> (result: bool)
        ensures
            result == (self.registered && token is Some),
    {
        self.registered && token.is_some()
    }
}

// ---------------------------------------------------------------------------
// Messages of the extension
// ---------------------------------------------------------------------------
/// A message of the extension. What was missing, or of another type, is
/// missing here.
#[derive(Debug)]
pub struct ExtensionMessage {
    pub kind: Option<String>,
    pub image_data: Option<String>,
    pub image_hash: Option<String>,
    pub width: Option<i64>,
    pub height: Option<i64>,
    pub page_url: Option<String>,
    pub page_title: Option<String>,
    pub page_icon: Option<String>,
    /// The links of the page, as they are written.
    pub visible_links: Option<String>,
    pub browser_name: Option<String>,
}

/// The message holds what the fields hold: a field that is missing or of
/// another type is missing.
pub open spec fn holds_fields(
    msg: ExtensionMessage,
    fields: Seq<(Seq<char>, json::JsonModel)>,
) -> bool {
    &&& json::said(msg.kind) == json::text_field(fields, "type"@)
    &&& json::said(msg.image_data) == json::text_field(fields, "image_data"@)
    &&& json::said(msg.image_hash) == json::text_field(fields, "image_hash"@)
    &&& msg.width == json::integer_field(fields, "width"@)
    &&& msg.height == json::integer_field(fields, "height"@)
    &&& json::said(msg.page_url) == json::text_field(fields, "page_url"@)
    &&& json::said(msg.page_title) == json::text_field(fields, "page_title"@)
    &&& json::said(msg.page_icon) == json::text_field(fields, "page_icon"@)
    &&& json::said(msg.visible_links) == json::written_field(fields, "visible_links"@)
    &&& json::said(msg.browser_name) == json::text_field(fields, "browser_name"@)
}

/// The message in the body of a frame of the extension, or why there is none.
pub fn read_extension_message(body: &[u8]) -> (result: Result<ExtensionMessage, String>)
    ensures
        match (result, json::json_document_bytes(body@)) {
            (Ok(msg), Ok(document)) => holds_fields(msg, json::fields_of(document)),
            (Err(e), Err(why)) => e@ == why,
            _ => false,
        },
{
    match json::parse_document_bytes(body) {
        Ok(document) => Ok(
            ExtensionMessage {
                kind: document.get_text("type"),
                image_data: document.get_text("image_data"),
                image_hash: document.get_text("image_hash"),
                width: document.get_integer("width"),
                height: document.get_integer("height"),
                page_url: document.get_text("page_url"),
                page_title: document.get_text("page_title"),
                page_icon: document.get_text("page_icon"),
                visible_links: document.get_written("visible_links"),
                browser_name: document.get_text("browser_name"),
            },
        ),
        Err(e) => Err(e),
    }
}

/// An answer of the application: what it says of itself, and all of it as it is
/// written.
#[derive(Debug)]
pub struct PipeAnswer {
    pub status: Option<String>,
    pub error: Option<String>,
    pub written: String,
}

/// The answer in the body of a frame of the application, or why there is none.
pub fn read_answer(body: &[u8]) -> (result: Result<PipeAnswer, String>)
    ensures
        match (result, json::json_document_bytes(body@)) {
            (Ok(answer), Ok(document)) => {
                let fields = json::fields_of(document);
                &&& json::said(answer.status) == json::text_field(fields, "status"@)
                &&& json::said(answer.error) == json::text_field(fields, "error"@)
                &&& answer.written@ == document.written
            },
            (Err(e), Err(why)) => e@ == why,
            _ => false,
        },
{
    match json::parse_document_bytes(body) {
        Ok(document) => {
            let status = document.get_text("status");
            let error = document.get_text("error");
            Ok(PipeAnswer { status, error, written: document.written })
        },
        Err(e) => Err(e),
    }
}

/// The request by which a screenshot of the extension is stored. The links of
/// the page go along as they are written.
#[derive(Debug)]
pub struct SaveRequest {
    pub command: &'static str,
    pub ipc_protocol_version: u32,
    pub auth_token: String,
    pub image_data: String,
    pub image_hash: String,
    pub width: i64,
    pub height: i64,
    pub page_url: String,
    pub page_title: String,
    pub page_icon: Option<String>,
    pub visible_links: Option<String>,
    pub browser_name: String,
    pub nmh_pid: u32,
}

/// What is done about a message of the extension.
#[derive(Debug)]
pub enum MessagePlan {
    /// It is answered that something is wrong.
    Refuse { error: String },
    /// It is answered that the host is there.
    Pong,
    /// The screenshot is stored, after the host was registered where it was
    /// not.
    Save { register_first: bool, request: SaveRequest },
}

/// The text, or an empty one.
pub open spec fn or_empty(value: Option<String>) -> Seq<char> {
    match value {
        Some(s) => s@,
        None => ""@,
    }
}

fn text_or_empty(value: Option<String>) -> (result: String)
    ensures
        result@ == or_empty(value),
{
    match value {
        Some(s) => s,
        None => "".to_owned(),
    }
}

/// The name that a screenshot of the extension carries: the browser that was
/// found, else what the extension said, else a general one.
pub open spec fn shown_browser(browser: Option<BrowserInfo>, said: Option<String>) -> Seq<char> {
    match browser {
        Some(b) => b.exe_name@,
        None => match said {
            Some(name) => name@,
            None => "browser-extension"@,
        },
    }
}

/// The request holds what the message holds.
pub open spec fn carries(
    request: SaveRequest,
    msg: ExtensionMessage,
    auth_token: Seq<char>,
    browser: Option<BrowserInfo>,
    nmh_pid: u32,
) -> bool {
    &&& request.command@ == "save_extension_screenshot"@
    &&& request.ipc_protocol_version == IPC_PROTOCOL_VERSION
    &&& request.auth_token@ == auth_token
    &&& msg.image_data == Some(request.image_data)
    &&& msg.image_hash == Some(request.image_hash)
    &&& request.width == match msg.width {
        Some(n) => n,
        None => 0,
    }
    &&& request.height == match msg.height {
        Some(n) => n,
        None => 0,
    }
    &&& request.page_url@ == or_empty(msg.page_url)
    &&& request.page_title@ == or_empty(msg.page_title)
    &&& request.page_icon == msg.page_icon
    &&& request.visible_links == msg.visible_links
    &&& request.browser_name@ == shown_browser(browser, msg.browser_name)
    &&& request.nmh_pid == nmh_pid
}

/// What is done about a message of the extension.
pub open spec fn handled(
    msg: ExtensionMessage,
    auth_token: &str,
    browser: &Option<BrowserInfo>,
    registered: bool,
    nmh_pid: u32,
    result: MessagePlan,
) -> bool {
    ({
        let kind = or_empty(msg.kind);
        if kind == "save_screenshot"@ {
            match result {
                MessagePlan::Refuse { error } => if msg.image_data is None {
                    error@ == "Missing image_data"@
                } else {
                    msg.image_hash is None && error@ == "Missing image_hash"@
                },
                MessagePlan::Pong => false,
                MessagePlan::Save { register_first, request } => {
                    &&& register_first == (!registered && browser is Some)
                    &&& carries(request, msg, auth_token@, *browser, nmh_pid)
                },
            }
        } else if kind == "ping"@ {
            result is Pong
        } else {
            result is Refuse && result->error@ == "Unknown message type: "@ + kind
        }
    })
}

/// What is done about a message of the extension.
pub fn handle_message(
    msg: ExtensionMessage,
    auth_token: &str,
    browser: &Option<BrowserInfo>,
    registered: bool,
    nmh_pid: u32,
) -> (result: MessagePlan)
    ensures
        handled(msg, auth_token, browser, registered, nmh_pid, result),
{
    let kind = text_or_empty(msg.kind);
    if text::same(&kind, "save_screenshot") {
        let image_data = match msg.image_data {
            Some(data) => data,
            None => {
                return MessagePlan::Refuse { error: "Missing image_data".to_owned() };
            },
        };
        let image_hash = match msg.image_hash {
            Some(hash) => hash,
            None => {
                return MessagePlan::Refuse { error: "Missing image_hash".to_owned() };
            },
        };
        let browser_name = match browser {
            Some(b) => b.exe_name.clone(),
            None => match msg.browser_name {
                Some(name) => name,
                None => "browser-extension".to_owned(),
            },
        };
        let request = SaveRequest {
            command: "save_extension_screenshot",
            ipc_protocol_version: IPC_PROTOCOL_VERSION,
            auth_token: auth_token.to_owned(),
            image_data,
            image_hash,
            width: match msg.width {
                Some(n) => n,
                None => 0,
            },
            height: match msg.height {
                Some(n) => n,
                None => 0,
            },
            page_url: text_or_empty(msg.page_url),
            page_title: text_or_empty(msg.page_title),
            page_icon: msg.page_icon,
            visible_links: msg.visible_links,
            browser_name,
            nmh_pid,
        };
        return MessagePlan::Save {
            register_first: !registered && browser.is_some(),
            request,
        };
    }
    if text::same(&kind, "ping") {
        return MessagePlan::Pong;
    }
    MessagePlan::Refuse { error: text::join2("Unknown message type: ", &kind) }
}

/// The answer shows that the application has forgotten the host, or is gone.
pub open spec fn forgotten(status: Option<&str>, error: Option<&str>) -> bool {
    &&& status is Some
    &&& status->0@ == "error"@
    &&& error is Some
    &&& text::holds_text(error->0@, "Authentication failed"@) || text::holds_text(
        error->0@,
        "Cannot connect"@,
    )
}

/// Whether the host still counts as registered after an answer.
pub fn still_registered(registered: bool, status: Option<&str>, error: Option<&str>) -> (result:
    bool)
    ensures
        result == (registered && !forgotten(status, error)),
{
    let failed = match status {
        Some(s) => text::same(s, "error"),
        None => false,
    };
    if failed {
        match error {
            Some(e) => {
                if text::contains(e, "Authentication failed") || text::contains(
                    e,
                    "Cannot connect",
                ) {
                    return false;
                }
            },
            None => {},
        }
    }
    registered
}

/// After a failure to reach the application, the host does not count as
/// registered.
pub proof fn law_lost_connection_is_noticed(status: &str, error: &str, pipe: Seq<char>, detail: Seq<char>)
    requires
        status@ == "error"@,
        error@ == failure_text(PipeFailure::Connect, pipe, detail),
    ensures
        forgotten(Some(status), Some(error)),
{
    reveal_strlit("Cannot connect to CarbonPaper (pipe ");
    reveal_strlit("Cannot connect");
    let needle = "Cannot connect"@;
    assert(error@.subrange(0, needle.len() as int) =~= needle);
    assert(text::occurs_at(error@, needle, 0));
}

// ---------------------------------------------------------------------------
// The command pipe
// ---------------------------------------------------------------------------
/// The server of the command pipe.
#[derive(Debug, Clone, Copy, PartialEq, Eq, Structural)]
pub struct CommandServer {
    pub create_failure_reported: bool,
}

/// What the server does next.
#[derive(Debug)]
pub enum ServerStep {
    /// It goes on with this pipe.
    Serve,
    /// It waits, in milliseconds, and makes another pipe. A failure may have to
    /// be reported first.
    Wait { ms: u64, report: Option<String> },
}

/// What is reported where no command pipe can be made.
pub open spec fn create_failure_text(code: u32) -> Seq<char> {
    "Failed to create command pipe (Win32 error "@ + text::decimal(code as nat)
        + "); capture requests unavailable"@
}

impl CommandServer {
    pub fn new() -> (result: Self)
        ensures
            !result.create_failure_reported,
    {
        CommandServer { create_failure_reported: false }
    }

    /// A pipe was made, or the system gave an error code. Of failures in a row
    /// only the first is reported.
    pub fn created(&mut self, outcome: Result<(), u32>) -> (result: ServerStep)
        ensures
            final(self).create_failure_reported == outcome is Err,
            match outcome {
                Ok(_) => result is Serve,
                Err(code) => {
                    &&& result is Wait
                    &&& result->ms == 2000
                    &&& match result->report {
                        Some(told) => !old(self).create_failure_reported && told@
                            == create_failure_text(code),
                        None => old(self).create_failure_reported,
                    }
                },
            },
    {
        match outcome {
            Ok(_) => {
                self.create_failure_reported = false;
                ServerStep::Serve
            },
            Err(code) => {
                let report = if self.create_failure_reported {
                    None
                } else {
                    let shown = text::decimal_string(code as u64);
                    Some(
                        text::join3(
                            "Failed to create command pipe (Win32 error ",
                            &shown,
                            "); capture requests unavailable",
                        ),
                    )
                };
                self.create_failure_reported = true;
                ServerStep::Wait { ms: 2000, report }
            },
        }
    }

    /// A client connected, or the system gave an error code. A client that was
    /// there already is no error.
    pub fn connected(&self, outcome: Result<(), u32>) -> (result: ServerStep)
        ensures
            match outcome {
                Err(code) => if code == 535 {
                    result is Serve
                } else {
                    result is Wait && result->ms == 100 && result->report is None
                },
                Ok(_) => result is Serve,
            },
    {
        match outcome {
            Err(code) => if code == 535 {
                ServerStep::Serve
            } else {
                ServerStep::Wait { ms: 100, report: None }
            },
            Ok(_) => ServerStep::Serve,
        }
    }
}

/// The command in a request of the application; one that is no JSON, or has no
/// text for a command, has none.
pub open spec fn command_of(request: Seq<char>) -> Option<Seq<char>> {
    match json::json_document(request) {
        Ok(document) => json::text_field(json::fields_of(document), "command"@),
        Err(_) => None,
    }
}

/// The command in a request of the application.
pub fn request_command(request: &str) -> (result: Option<String>)
    ensures
        json::said(result) == command_of(request@),
{
    match json::parse_document(request) {
        Ok(document) => document.get_text("command"),
        Err(_) => None,
    }
}

/// The bytes that were read from the pipe ask for a capture. None were read
/// where there is nothing to answer.
pub fn serves_request(bytes: Option<&[u8]>) -> (result: bool)
    ensures
        result == match bytes {
            Some(read) => read@.len() > 0 && command_of(text::lossy_of(read@)) == Some(
                "request_capture"@,
            ),
            None => false,
        },
{
    match bytes {
        Some(read) => if read.len() > 0 {
            let request = text::lossy_text(read);
            match request_command(&request) {
                Some(command) => asks_for_capture(Some(&command)),
                None => false,
            }
        } else {
            false
        },
        None => false,
    }
}

/// The command asks for a capture; any other gets no answer.
pub fn asks_for_capture(command: Option<&str>) -> (result: bool)
    ensures
        result == (command is Some && command->0@ == "request_capture"@),
{
    match command {
        Some(c) => text::same(c, "request_capture"),
        None => false,
    }
}

/// The answer to a request for a capture, once it was handed to the extension
/// or could not be: the error, if there was one.
pub fn forward_answer(outcome: Result<(), String>) -> (result: Option<String>)
    ensures
        match (outcome, result) {
            (Ok(_), None) => true,
            (Err(e), Some(told)) => told@ == "Failed to forward capture request to extension: "@
                + e@,
            _ => false,
        },
{
    match outcome {
        Ok(_) => None,
        Err(e) => Some(text::join2("Failed to forward capture request to extension: ", &e)),
    }
}

/// The browser is the outermost of a run of programs of one name: nothing of
/// that name stands directly above it, everything between it and the first of
/// the run has the name, and all below is a command shell or has no name.
pub proof fn law_the_browser_is_the_outermost_of_its_name(
    ancestors: Seq<(u32, Seq<char>)>,
    first: int,
    last: int,
    i: int,
)
    requires
        browser_run(ancestors, first, last),
    ensures
        0 <= first <= last < ancestors.len(),
        ancestors[first].1.len() > 0,
        text::lower_ascii(ancestors[first].1) != text::lower_ascii("cmd.exe"@),
        text::lower_ascii(ancestors[first].1) != text::lower_ascii("cmd"@),
        0 <= i < first ==> ancestors[i].1.len() == 0 || text::lower_ascii(ancestors[i].1)
            == text::lower_ascii("cmd.exe"@) || text::lower_ascii(ancestors[i].1)
            == text::lower_ascii("cmd"@),
        first <= i <= last ==> text::lower_ascii(ancestors[i].1) == text::lower_ascii(
            ancestors[first].1,
        ),
        last + 1 < ancestors.len() ==> text::lower_ascii(ancestors[last + 1].1)
            != text::lower_ascii(ancestors[first].1),
{
}

/// Each ancestor is the parent of the one before it, and has the name that it is
/// listed with; the first is the parent of the program itself. The chain is no
/// longer than asked for, and no program is its own parent in it.
pub proof fn law_ancestors_are_parents(
    processes: Seq<ProcessEntry>,
    pid: u32,
    limit: nat,
    i: int,
)
    requires
        0 <= i < ancestors_of(processes, pid, limit).len(),
    ensures
        ancestors_of(processes, pid, limit).len() <= limit,
        ({
            let chain = ancestors_of(processes, pid, limit);
            let child = if i == 0 {
                pid
            } else {
                chain[i - 1].0
            };
            &&& entry_of(processes, child) is Some
            &&& entry_of(processes, child)->0.parent == chain[i].0
            &&& chain[i].0 != 0
            &&& chain[i].0 != child
            &&& entry_of(processes, chain[i].0) is Some
            &&& entry_of(processes, chain[i].0)->0.name@ == chain[i].1
        }),
    decreases limit,
{
    let chain = ancestors_of(processes, pid, limit);
    if limit > 0 {
        let parent = entry_of(processes, pid)->0.parent;
        let rest = ancestors_of(processes, parent, (limit - 1) as nat);
        assert(chain =~= seq![(parent, entry_of(processes, parent)->0.name@)] + rest);
        assert(chain[0] == (parent, entry_of(processes, parent)->0.name@));
        if i > 0 {
            assert(chain[i] == rest[i - 1]);
            if i > 1 {
                assert(chain[i - 1] == rest[i - 2]);
            }
            law_ancestors_are_parents(processes, parent, (limit - 1) as nat, i - 1);
        } else {
            if rest.len() > 0 {
                law_ancestors_are_parents(processes, parent, (limit - 1) as nat, 0);
            }
        }
    }
}

/// A listed program is found by its number.
pub proof fn law_programs_are_found_by_their_number(
    processes: Seq<ProcessEntry>,
    pid: u32,
    i: int,
)
    requires
        0 <= i < processes.len(),
        processes[i].pid == pid,
        forall|j: int| i < j < processes.len() ==> (#[trigger] processes[j]).pid != pid,
    ensures
        entry_of(processes, pid) == Some(processes[i]),
    decreases processes.len(),
{
    if i < processes.len() - 1 {
        assert(processes[processes.len() - 1].pid != pid);
        let head = processes.drop_last();
        assert forall|j: int| i < j < head.len() implies (#[trigger] head[j]).pid != pid by {
            assert(head[j] == processes[j]);
        }
        law_programs_are_found_by_their_number(head, pid, i);
    }
}

/// A screenshot of the extension is stored as it was sent, with the token, once
/// it has an image and a hash; without them it is refused, and so is a message
/// of an unknown kind. The host registers first where it is not registered and
/// knows its browser.
pub proof fn law_screenshots_are_passed_on(
    msg: ExtensionMessage,
    auth_token: &str,
    browser: &Option<BrowserInfo>,
    registered: bool,
    nmh_pid: u32,
    result: MessagePlan,
)
    requires
        handled(msg, auth_token, browser, registered, nmh_pid, result),
    ensures
        result is Save <==> (msg.kind matches Some(kind) && kind@ == "save_screenshot"@)
            && msg.image_data is Some && msg.image_hash is Some,
        result is Save ==> {
            &&& result->request.image_data@ == msg.image_data->0@
            &&& result->request.image_hash@ == msg.image_hash->0@
            &&& result->request.auth_token@ == auth_token@
            &&& result->request.command@ == "save_extension_screenshot"@
            &&& result->request.ipc_protocol_version == 2
            &&& result->request.nmh_pid == nmh_pid
            &&& msg.page_url matches Some(url) ==> result->request.page_url@ == url@
            &&& msg.page_title matches Some(title) ==> result->request.page_title@ == title@
            &&& *browser matches Some(b) ==> result->request.browser_name@ == b.exe_name@
            &&& result->register_first <==> !registered && *browser is Some
        },
        result is Pong <==> (msg.kind matches Some(kind) && kind@ == "ping"@),
{
    reveal_strlit("ping");
    reveal_strlit("save_screenshot");
    reveal_strlit("");
    assert("ping"@.len() == 4 && "save_screenshot"@.len() == 15 && ""@.len() == 0);
}

/// A failure to register is told once: the same failure again is not, another
/// one is, and so is the success that ends it.
pub proof fn law_failures_to_register_are_told_once(
    first: Registration,
    second: Registration,
    third: Registration,
    error: String,
    other: String,
    told: RegistrationReport,
    again: RegistrationReport,
)
    requires
        Registration::attempt_noted(first, second, false, Err(error), told),
        Registration::attempt_noted(second, third, false, Err(other), again),
    ensures
        !second.registered,
        error@ == other@ ==> again is Silent,
        error@ != other@ ==> again is Failed && again->error@ == other@,
{
}

/// A success after a failure is told, and a failure after it is news again.
pub proof fn law_success_clears_the_failure(
    first: Registration,
    second: Registration,
    third: Registration,
    error: String,
    told: RegistrationReport,
    again: RegistrationReport,
)
    requires
        Registration::attempt_noted(first, second, false, Ok(()), told),
        Registration::attempt_noted(second, third, true, Err(error), again),
    ensures
        second.registered && told is Registered,
        !third.registered && again is Failed,
{
}

/// Lengths are held to their limits: nothing of no length is read as a frame,
/// and nothing above ten mebibytes from the extension or sixteen from the
/// application.
pub proof fn law_lengths_are_limited(
    head: &[u8],
    message: Result<Option<usize>, String>,
    frame: Result<usize, String>,
)
    requires
        message_length_read(head, message),
        frame_length_read(head, frame),
    ensures
        ({
            let length = codec::le_value(head@);
            &&& length > 10 * 1024 * 1024 <==> message is Err
            &&& length == 0 <==> message == Ok::<Option<usize>, String>(None)
            &&& 0 < length <= 10 * 1024 * 1024 ==> (message matches Ok(Some(n)) && n == length)
            &&& length == 0 || length > 16 * 1024 * 1024 <==> frame is Err
            &&& 0 < length <= 16 * 1024 * 1024 ==> (frame matches Ok(n) && n == length)
        }),
{
}

/// Only an error that says so makes the host register again: a refused token,
/// or an application that cannot be reached.
pub proof fn law_other_errors_keep_the_registration(status: Option<&str>, error: Option<&str>)
    ensures
        status is None || error is None ==> !forgotten(status, error),
        status matches Some(s) ==> s@ != "error"@ ==> !forgotten(status, error),
        status matches Some(s) ==> (error matches Some(e) ==> s@ == "error"@ && text::holds_text(
            e@,
            "Authentication failed"@,
        ) ==> forgotten(status, error)),
        error matches Some(e) ==> !text::holds_text(e@, "Authentication failed"@)
            && !text::holds_text(e@, "Cannot connect"@) ==> !forgotten(status, error),
{
}

} // verus!
