//! When the screen is captured, and which windows are left out.
use crate::images::{bgra_to_rgb, encode_capture, is_redundant, CapturedImage, DHash};
use crate::names::NameSet;
use crate::{digest, images, json, text};
use std::collections::HashMap;
use vstd::prelude::*;
use vstd::string::*;

verus! {

/// How captures are taken and compared.
#[derive(Debug, Clone, Copy, PartialEq, Eq, Structural)]
pub struct CaptureConfig {
    pub interval_secs: u64,
    pub polling_rate_ms: u64,
    pub max_side: u32,
    pub jpeg_quality: u8,
    pub dhash_threshold: u32,
    pub dhash_history_size: usize,
}

impl Default for CaptureConfig {
    fn default() -> (result: Self)
        ensures
            result == (CaptureConfig {
                interval_secs: 10,
                polling_rate_ms: 500,
                max_side: 1600,
                jpeg_quality: 65,
                dhash_threshold: 10,
                dhash_history_size: 3,
            }),
    {
        CaptureConfig {
            interval_secs: 10,
            polling_rate_ms: 500,
            max_side: 1600,
            jpeg_quality: 65,
            dhash_threshold: 10,
            dhash_history_size: 3,
        }
    }
}

/// Which windows and programs are left out.
#[derive(Debug)]
pub struct ExclusionSettings {
    pub exclusion_keywords: Vec<String>,
    pub exclusion_titles: Vec<String>,
    pub user_excluded_processes: NameSet,
    pub user_excluded_titles: NameSet,
    pub ignore_protected_windows: bool,
}

/// Words that mark private windows.
pub open spec fn private_words() -> Seq<Seq<char>> {
    seq!["InPrivate"@, "Incognito"@, "隐身"@, "私密"@, "无痕"@]
}

/// Titles of windows that show nothing of their own.
pub open spec fn empty_titles() -> Seq<Seq<char>> {
    seq!["Windows Default Lock Screen"@, "Search"@, "Program Manager"@, "Task Switching"@]
}

impl Default for ExclusionSettings {
    fn default() -> (result: Self)
        ensures
            text::texts(result.exclusion_keywords@) == private_words(),
            text::texts(result.exclusion_titles@) == empty_titles(),
            forall|n: Seq<char>| !#[trigger] result.user_excluded_processes.has(n),
            forall|n: Seq<char>| !#[trigger] result.user_excluded_titles.has(n),
            result.ignore_protected_windows,
    {
        let exclusion_keywords: Vec<&'static str> = vec![
            "InPrivate",
            "Incognito",
            "隐身",
            "私密",
            "无痕",
        ];
        let exclusion_titles: Vec<&'static str> = vec![
            "Windows Default Lock Screen",
            "Search",
            "Program Manager",
            "Task Switching",
        ];
        assert(text::views(exclusion_keywords@) =~= private_words());
        assert(text::views(exclusion_titles@) =~= empty_titles());
        ExclusionSettings {
            exclusion_keywords: text::owned(&exclusion_keywords),
            exclusion_titles: text::owned(&exclusion_titles),
            user_excluded_processes: NameSet::new(),
            user_excluded_titles: NameSet::new(),
            ignore_protected_windows: true,
        }
    }
}

/// One of the entries, trimmed and in lower case, is this name. Blank entries
/// count for nothing.
pub open spec fn listed(entries: Seq<String>, name: Seq<char>) -> bool {
    exists|i: int|
        0 <= i < entries.len() && text::trimmed((#[trigger] entries[i])@).len() > 0 && name
            == text::lowercase_of(text::trimmed(entries[i]@))
}

/// The name is one of the entries, in the form in which they are kept.
pub open spec fn listed_in(entries: Seq<Seq<char>>, name: Seq<char>) -> bool {
    exists|i: int|
        0 <= i < entries.len() && text::trimmed(#[trigger] entries[i]).len() > 0 && name
            == text::lowercase_of(text::trimmed(entries[i]))
}

proof fn lemma_listed(entries: Seq<String>)
    ensures
        forall|name: Seq<char>| #[trigger]
            listed(entries, name) == listed_in(text::texts(entries), name),
{
    let texts = text::texts(entries);
    assert forall|name: Seq<char>| #[trigger] listed(entries, name) == listed_in(texts, name) by {
        if listed(entries, name) {
            let i = choose|i: int|
                0 <= i < entries.len() && text::trimmed((#[trigger] entries[i])@).len() > 0 && name
                    == text::lowercase_of(text::trimmed(entries[i]@));
            assert(texts[i] == entries[i]@);
        }
        if listed_in(texts, name) {
            let i = choose|i: int|
                0 <= i < texts.len() && text::trimmed(#[trigger] texts[i]).len() > 0 && name
                    == text::lowercase_of(text::trimmed(texts[i]));
            assert(texts[i] == entries[i]@);
        }
    }
}

/// The names are in the form in which they are kept: trimmed, in small letters,
/// and none of them empty.
pub open spec fn in_kept_form(names: NameSet) -> bool {
    forall|i: int|
        0 <= i < names.names@.len() ==> {
            let name = (#[trigger] names.names@[i])@;
            &&& text::trimmed(name).len() > 0
            &&& text::lowercase_of(text::trimmed(name)) == name
        }
}

proof fn lemma_kept_names(names: NameSet)
    requires
        in_kept_form(names),
    ensures
        forall|n: Seq<char>| #[trigger]
            listed_in(text::texts(names.names@), n) == names.has(n),
{
    let list = text::texts(names.names@);
    assert forall|n: Seq<char>| #[trigger] listed_in(list, n) == names.has(n) by {
        if names.has(n) {
            let i = choose|i: int| 0 <= i < names.names@.len() && (#[trigger] names.names@[i])@ == n;
            assert(list[i] == names.names@[i]@);
        }
        if listed_in(list, n) {
            let i = choose|i: int|
                0 <= i < list.len() && text::trimmed(#[trigger] list[i]).len() > 0 && n
                    == text::lowercase_of(text::trimmed(list[i]));
            assert(list[i] == names.names@[i]@);
        }
    }
}

/// What is read from a settings file is what was written to it: the state that
/// reads the text excludes the same names as the one that wrote it, and treats
/// protected windows alike, whatever it excluded before.
pub proof fn law_exclusions_survive_their_file(
    written: ExclusionSettings,
    before: CaptureState,
    after: CaptureState,
)
    requires
        in_kept_form(written.user_excluded_processes),
        in_kept_form(written.user_excluded_titles),
        after.updated(
            before,
            Some(text::texts(written.user_excluded_processes.names@)),
            Some(text::texts(written.user_excluded_titles.names@)),
            Some(written.ignore_protected_windows),
        ),
    ensures
        forall|n: Seq<char>| #[trigger]
            after.exclusion_settings.user_excluded_processes.has(n)
                == written.user_excluded_processes.has(n),
        forall|n: Seq<char>| #[trigger]
            after.exclusion_settings.user_excluded_titles.has(n)
                == written.user_excluded_titles.has(n),
        after.exclusion_settings.ignore_protected_windows == written.ignore_protected_windows,
{
    lemma_kept_names(written.user_excluded_processes);
    lemma_kept_names(written.user_excluded_titles);
    assert forall|n: Seq<char>| #[trigger]
        after.exclusion_settings.user_excluded_processes.has(n)
            == written.user_excluded_processes.has(n) by {
        assert(listed_in(text::texts(written.user_excluded_processes.names@), n)
            == written.user_excluded_processes.has(n));
    }
    assert forall|n: Seq<char>| #[trigger]
        after.exclusion_settings.user_excluded_titles.has(n)
            == written.user_excluded_titles.has(n) by {
        assert(listed_in(text::texts(written.user_excluded_titles.names@), n)
            == written.user_excluded_titles.has(n));
    }
}

/// The names that a list of entries stands for.
pub fn normalized(entries: &Vec<String>) -> (result: NameSet)
    ensures
        forall|n: Seq<char>| #[trigger] result.has(n) == listed(entries@, n),
{
    let mut names = NameSet::new();
    let mut i: usize = 0;
    assert(entries@.take(0) =~= Seq::<String>::empty());
    while i < entries.len()
        invariant
            i <= entries@.len(),
            forall|n: Seq<char>| #[trigger] names.has(n) == listed(entries@.take(i as int), n),
        decreases entries@.len() - i,
    {
        let ghost before = names;
        let trimmed = text::trim(&entries[i]);
        let ghost shorter = entries@.take(i as int);
        let ghost longer = entries@.take(i + 1);
        let full = text::chars_of(&trimmed).len() > 0;
        if full {
            names.insert(&text::to_lowercase(&trimmed));
        }
        proof {
            assert(forall|k: int| 0 <= k < i ==> #[trigger] longer[k] == shorter[k]);
            assert(longer[i as int] == entries@[i as int]);
            assert forall|n: Seq<char>| #[trigger] names.has(n) == listed(longer, n) by {
                if listed(shorter, n) {
                    let k = choose|k: int|
                        0 <= k < shorter.len() && text::trimmed((#[trigger] shorter[k])@).len() > 0
                            && n == text::lowercase_of(text::trimmed(shorter[k]@));
                    assert(longer[k] == shorter[k]);
                    assert(listed(longer, n));
                }
                if full && n == text::lowercase_of(text::trimmed(entries@[i as int]@)) {
                    assert(text::trimmed(longer[i as int]@).len() > 0);
                    assert(listed(longer, n));
                }
                if listed(longer, n) {
                    let k = choose|k: int|
                        0 <= k < longer.len() && text::trimmed((#[trigger] longer[k])@).len() > 0
                            && n == text::lowercase_of(text::trimmed(longer[k]@));
                    if k < i {
                        assert(shorter[k] == longer[k]);
                        assert(listed(shorter, n));
                    }
                }
                assert(before.has(n) == listed(shorter, n));
            }
        }
        i = i + 1;
    }
    assert(entries@.take(entries@.len() as int) =~= entries@);
    names
}

impl ExclusionSettings {
    /// Takes new settings over; what is not given stays.
    pub fn update(
        &mut self,
        processes: Option<Vec<String>>,
        titles: Option<Vec<String>>,
        ignore_protected: Option<bool>,
    )
        ensures
            final(self).exclusion_keywords == old(self).exclusion_keywords,
            final(self).exclusion_titles == old(self).exclusion_titles,
            match processes {
                Some(list) => forall|n: Seq<char>| #[trigger]
                    final(self).user_excluded_processes.has(n) == listed(list@, n),
                None => final(self).user_excluded_processes == old(self).user_excluded_processes,
            },
            match titles {
                Some(list) => forall|n: Seq<char>| #[trigger]
                    final(self).user_excluded_titles.has(n) == listed(list@, n),
                None => final(self).user_excluded_titles == old(self).user_excluded_titles,
            },
            final(self).ignore_protected_windows == match ignore_protected {
                Some(ignore) => ignore,
                None => old(self).ignore_protected_windows,
            },
    {
        match processes {
            Some(list) => {
                self.user_excluded_processes = normalized(&list);
            },
            None => {},
        }
        match titles {
            Some(list) => {
                self.user_excluded_titles = normalized(&list);
            },
            None => {},
        }
        match ignore_protected {
            Some(ignore) => {
                self.ignore_protected_windows = ignore;
            },
            None => {},
        }
    }
}

/// A rectangle of the screen.
#[derive(Debug, Clone, Copy, PartialEq, Eq, Structural)]
pub struct ScreenRect {
    pub left: i32,
    pub top: i32,
    pub right: i32,
    pub bottom: i32,
}

/// The window in front.
#[derive(Debug)]
pub struct ActiveWindowInfo {
    pub hwnd_raw: i64,
    pub title: String,
    pub rect: ScreenRect,
    pub pid: u32,
}

/// The window covers the monitor.
pub open spec fn covers(window: ScreenRect, monitor: ScreenRect) -> bool {
    window.left <= monitor.left && window.top <= monitor.top && window.right >= monitor.right
        && window.bottom >= monitor.bottom
}

/// What is known of the window in front and of its monitor.
#[derive(Debug)]
pub struct ForegroundFacts {
    pub process_path: Option<String>,
    pub window_class: String,
    pub window: Option<ScreenRect>,
    pub monitor: Option<ScreenRect>,
}

/// The program and the class of the window in front, and whether it covers its
/// monitor.
pub fn check_foreground_fullscreen(facts: Option<ForegroundFacts>) -> (result: Option<
    (String, String, bool),
>)
    ensures
        match (facts, result) {
            (None, None) => true,
            (Some(f), Some((process, class, full))) => {
                &&& process@ == match f.process_path {
                    Some(path) => text::lowercase_of(file_name(path@, after_drive(path@))),
                    None => Seq::empty(),
                }
                &&& class == f.window_class
                &&& full == (f.window is Some && f.monitor is Some && covers(
                    f.window->0,
                    f.monitor->0,
                ))
            },
            _ => false,
        },
{
    match facts {
        None => None,
        Some(f) => {
            let process = match &f.process_path {
                Some(path) => get_process_name_from_path(path),
                None => {
                    let nothing: Vec<char> = Vec::new();
                    text::string_of(nothing.as_slice())
                },
            };
            let full = match (f.window, f.monitor) {
                (Some(window), Some(monitor)) => window.left <= monitor.left && window.top
                    <= monitor.top && window.right >= monitor.right && window.bottom
                    >= monitor.bottom,
                _ => false,
            };
            Some((process, f.window_class, full))
        },
    }
}

/// Programs that are browsers.
pub open spec fn browser_names() -> Seq<Seq<char>> {
    seq![
        "chrome"@,
        "chrome.exe"@,
        "msedge"@,
        "msedge.exe"@,
        "firefox"@,
        "firefox.exe"@,
        "brave"@,
        "brave.exe"@,
        "opera"@,
        "opera.exe"@,
        "vivaldi"@,
        "vivaldi.exe"@,
        "iexplore"@,
        "iexplore.exe"@,
        "360se"@,
        "360se.exe"@,
        "sogouexplorer"@,
        "sogouexplorer.exe"@,
        "qqbrowser"@,
        "qqbrowser.exe"@,
        "2345explorer"@,
        "2345explorer.exe"@,
        "maxthon"@,
        "maxthon.exe"@,
        "seamonkey"@,
        "seamonkey.exe"@,
        "waterfox"@,
        "waterfox.exe"@,
        "floorp"@,
        "floorp.exe"@,
        "librewolf"@,
        "librewolf.exe"@,
        "arc"@,
        "arc.exe"@,
    ]
}

/// The program is a browser.
pub fn is_browser_process(process_name: &str) -> (result: bool)
    ensures
        result == browser_names().contains(text::lowercase_of(process_name@)),
{
    let names: Vec<&'static str> = vec![
        "chrome",
        "chrome.exe",
        "msedge",
        "msedge.exe",
        "firefox",
        "firefox.exe",
        "brave",
        "brave.exe",
        "opera",
        "opera.exe",
        "vivaldi",
        "vivaldi.exe",
        "iexplore",
        "iexplore.exe",
        "360se",
        "360se.exe",
        "sogouexplorer",
        "sogouexplorer.exe",
        "qqbrowser",
        "qqbrowser.exe",
        "2345explorer",
        "2345explorer.exe",
        "maxthon",
        "maxthon.exe",
        "seamonkey",
        "seamonkey.exe",
        "waterfox",
        "waterfox.exe",
        "floorp",
        "floorp.exe",
        "librewolf",
        "librewolf.exe",
        "arc",
        "arc.exe",
    ];
    assert(text::views(names@) =~= browser_names());
    text::is_one_of(&text::to_lowercase(process_name), &names)
}

/// Window classes of the system that may cover the screen.
pub open spec fn system_classes() -> Seq<Seq<char>> {
    seq![
        "progman"@,
        "workerw"@,
        "shell_traywnd"@,
        "shell_secondarytraywnd"@,
        "windows.ui.core.corewindow"@,
        "applicationframewindow"@,
        "lockapp"@,
        "foregroundstaging"@,
        "multitaskingviewframe"@,
        "ghost"@,
        "tooltips_class32"@,
        "#32769"@,
        "xaml_windowedpopupclass"@,
    ]
}

/// The window belongs to the system.
pub fn is_system_window_class(class_name: &str) -> (result: bool)
    ensures
        result == system_classes().contains(text::lowercase_of(class_name@)),
{
    let names: Vec<&'static str> = vec![
        "progman",
        "workerw",
        "shell_traywnd",
        "shell_secondarytraywnd",
        "windows.ui.core.corewindow",
        "applicationframewindow",
        "lockapp",
        "foregroundstaging",
        "multitaskingviewframe",
        "ghost",
        "tooltips_class32",
        "#32769",
        "xaml_windowedpopupclass",
    ];
    assert(text::views(names@) =~= system_classes());
    text::is_one_of(&text::to_lowercase(class_name), &names)
}

/// The character separates directories.
pub open spec fn separates(c: char) -> bool {
    c == '/' || c == '\\'
}

/// The character is a letter from A to Z.
pub open spec fn is_letter(c: char) -> bool {
    'a' <= c <= 'z' || 'A' <= c <= 'Z'
}

/// Where the part of a path that begins here ends.
pub open spec fn part_end(path: Seq<char>, from: nat) -> nat
    decreases path.len() - from,
{
    if from >= path.len() || separates(path[from as int]) {
        from
    } else {
        part_end(path, from + 1)
    }
}

/// Where a path goes on after the name of its drive, or after the names of a
/// machine and what it shares.
pub open spec fn after_drive(path: Seq<char>) -> nat {
    let machine = part_end(path, 2);
    let share = part_end(path, machine + 1);
    if path.len() >= 2 && path[1] == ':' && is_letter(path[0]) {
        2
    } else if path.len() >= 2 && separates(path[0]) && separates(path[1]) && 2 < machine
        < path.len() && machine + 1 < share {
        share
    } else {
        0
    }
}

fn find_part_end(chars: &Vec<char>, from: usize) -> (result: usize)
    requires
        from <= chars@.len(),
    ensures
        result == part_end(chars@, from as nat),
        from <= result <= chars@.len(),
{
    let mut at: usize = from;
    while at < chars.len() && chars[at] != '/' && chars[at] != '\\'
        invariant
            from <= at <= chars@.len(),
            part_end(chars@, from as nat) == part_end(chars@, at as nat),
        decreases chars@.len() - at,
    {
        at = at + 1;
    }
    at
}

fn drive_end(chars: &Vec<char>) -> (result: usize)
    ensures
        result == after_drive(chars@),
        result <= chars@.len(),
{
    if chars.len() < 2 {
        return 0;
    }
    let first: char = chars[0];
    let second: char = chars[1];
    if second == ':' && (('a' <= first && first <= 'z') || ('A' <= first && first <= 'Z')) {
        return 2;
    }
    if (first == '/' || first == '\\') && (second == '/' || second == '\\') {
        let machine: usize = find_part_end(chars, 2);
        if machine > 2 && machine < chars.len() {
            let share: usize = find_part_end(chars, machine + 1);
            if share > machine + 1 {
                return share;
            }
        }
    }
    0
}

/// Where the last part of a path begins.
pub open spec fn last_part_start(path: Seq<char>, floor: nat) -> int
    decreases path.len(),
{
    if path.len() <= floor || separates(path.last()) {
        path.len() as int
    } else {
        last_part_start(path.drop_last(), floor)
    }
}

/// The last part of a path that is neither empty nor a dot; nothing where that
/// leads up.
pub open spec fn file_name(path: Seq<char>, floor: nat) -> Seq<char>
    decreases path.len(),
{
    if path.len() <= floor {
        Seq::empty()
    } else {
        let start = last_part_start(path, floor);
        let part = path.subrange(start, path.len() as int);
        if part.len() == 0 {
            file_name(path.drop_last(), floor)
        } else if part == seq!['.'] {
            file_name(path.drop_last(), floor)
        } else if part == seq!['.', '.'] {
            Seq::empty()
        } else {
            part
        }
    }
}

proof fn lemma_last_part(path: Seq<char>, floor: nat, start: int)
    requires
        floor <= start <= path.len(),
        forall|i: int| start <= i < path.len() ==> !separates(#[trigger] path[i]),
        start == floor || separates(path[start - 1]),
    ensures
        last_part_start(path, floor) == start,
    decreases path.len(),
{
    if path.len() > start {
        assert(!separates(path[path.len() - 1]));
        lemma_last_part(path.drop_last(), floor, start);
    }
}

/// The name of a program, in lower case, from its path. Directories are
/// separated by a slash or a backslash.
pub fn get_process_name_from_path(path: &str) -> (result: String)
    ensures
        result@ == text::lowercase_of(file_name(path@, after_drive(path@))),
{
    let chars = text::chars_of(path);
    let floor: usize = drive_end(&chars);
    let mut end: usize = chars.len();
    assert(chars@.take(end as int) =~= chars@);
    while end > floor
        invariant
            floor <= end <= chars@.len(),
            floor == after_drive(path@),
            chars@ == path@,
            file_name(path@, floor as nat) == file_name(chars@.take(end as int), floor as nat),
        decreases end,
    {
        let ghost head = chars@.take(end as int);
        assert(head.drop_last() =~= chars@.take(end - 1));
        let mut start: usize = end;
        while start > floor && chars[start - 1] != '/' && chars[start - 1] != '\\'
            invariant
                floor <= start <= end <= chars@.len(),
                head == chars@.take(end as int),
                forall|i: int| start <= i < end ==> !separates(#[trigger] head[i]),
            decreases start,
        {
            assert(!separates(head[start - 1]));
            start = start - 1;
        }
        proof {
            assert(start == floor || separates(head[start - 1]));
            lemma_last_part(head, floor as nat, start as int);
        }
        let length: usize = end - start;
        let ghost part = head.subrange(start as int, end as int);
        proof {
            assert(part.len() == length);
            assert(seq!['.'].len() == 1 && seq!['.', '.'].len() == 2);
            if length == 1 && chars@[start as int] == '.' {
                assert(part =~= seq!['.']);
            }
            if length == 2 && chars@[start as int] == '.' && chars@[start + 1] == '.' {
                assert(part =~= seq!['.', '.']);
            }
            if part == seq!['.'] {
                assert(part[0] == '.');
            }
            if part == seq!['.', '.'] {
                assert(part[0] == '.' && part[1] == '.');
            }
        }
        if length == 0 || (length == 1 && chars[start] == '.') {
            end = end - 1;
        } else if length == 2 && chars[start] == '.' && chars[start + 1] == '.' {
            let nothing: Vec<char> = Vec::new();
            assert(nothing@ =~= Seq::<char>::empty());
            return text::to_lowercase(&text::string_of(nothing.as_slice()));
        } else {
            let name = text::string_of(vstd::slice::slice_subrange(chars.as_slice(), start, end));
            assert(name@ =~= part);
            return text::to_lowercase(&name);
        }
    }
    let nothing: Vec<char> = Vec::new();
    assert(nothing@ =~= Seq::<char>::empty());
    text::to_lowercase(&text::string_of(nothing.as_slice()))
}

/// The command line of a program, in lower case, if it has any.
pub fn command_line_text(args: &[String]) -> (result: Option<String>)
    ensures
        match result {
            Some(line) => args@.len() > 0 && line@ == text::lowercase_of(
                text::spaced(text::texts(args@)),
            ),
            None => args@.len() == 0,
        },
{
    if args.len() == 0 {
        return None;
    }
    Some(text::to_lowercase(&text::join_spaced(args)))
}

/// Some word of the user occurs in the title.
pub open spec fn user_words_match(titles: NameSet, title_lower: Seq<char>) -> bool {
    exists|i: int|
        0 <= i < titles.names@.len() && (#[trigger] titles.names@[i])@.len() > 0
            && text::holds_text(title_lower, titles.names@[i]@)
}

/// The title begins with one of these.
pub open spec fn begins_with_some(title: Seq<char>, names: Seq<Seq<char>>) -> bool {
    exists|i: int| 0 <= i < names.len() && text::begins(title, #[trigger] names[i])
}

/// Words in the titles of browsers.
pub open spec fn browser_words() -> Seq<Seq<char>> {
    seq!["edge"@, "chrome"@, "firefox"@, "browser"@, "浏览器"@]
}

/// Arguments of a private window.
pub open spec fn private_flags() -> Seq<Seq<char>> {
    seq!["--incognito"@, "-inprivate"@, "-private"@, "--private-window"@]
}

/// What is known of a window besides its title.
#[derive(Debug)]
pub struct WindowFacts {
    pub protected: bool,
    /// The path of its program, where it can be read.
    pub process_path: Option<String>,
    /// The command line of its program, in lower case, where it can be read.
    pub command_line: Option<String>,
}

/// The window is not captured.
pub open spec fn excluded(title: Seq<char>, settings: ExclusionSettings, facts: WindowFacts) -> bool {
    let lower = text::lowercase_of(title);
    let process = text::lowercase_of(
        file_name(facts.process_path->0@, after_drive(facts.process_path->0@)),
    );
    ||| title.len() == 0
    ||| text::holds_some(title, text::texts(settings.exclusion_keywords@))
    ||| begins_with_some(title, text::texts(settings.exclusion_titles@))
    ||| user_words_match(settings.user_excluded_titles, lower)
    ||| settings.ignore_protected_windows && facts.protected
    ||| facts.process_path is Some && process.len() > 0 && settings.user_excluded_processes.has(
        process,
    )
    ||| text::holds_some(lower, browser_words()) && facts.command_line is Some && text::holds_some(
        facts.command_line->0@,
        private_flags(),
    )
}

fn title_holds(title: &str, words: &Vec<String>) -> (result: bool)
    ensures
        result == text::holds_some(title@, text::texts(words@)),
{
    let mut i: usize = 0;
    while i < words.len()
        invariant
            i <= words@.len(),
            forall|j: int| 0 <= j < i ==> !text::holds_text(title@, (#[trigger] words@[j])@),
        decreases words@.len() - i,
    {
        if text::contains(title, &words[i]) {
            assert(text::holds_text(title@, text::texts(words@)[i as int]));
            return true;
        }
        i = i + 1;
    }
    assert forall|j: int| 0 <= j < text::texts(words@).len() implies !text::holds_text(
        title@,
        #[trigger] text::texts(words@)[j],
    ) by {
        assert(!text::holds_text(title@, words@[j]@));
    }
    false
}

fn title_begins(title: &str, names: &Vec<String>) -> (result: bool)
    ensures
        result == begins_with_some(title@, text::texts(names@)),
{
    let mut i: usize = 0;
    while i < names.len()
        invariant
            i <= names@.len(),
            forall|j: int| 0 <= j < i ==> !text::begins(title@, (#[trigger] names@[j])@),
        decreases names@.len() - i,
    {
        if text::starts_with(title, &names[i]) {
            assert(text::begins(title@, text::texts(names@)[i as int]));
            return true;
        }
        i = i + 1;
    }
    assert forall|j: int| 0 <= j < text::texts(names@).len() implies !text::begins(
        title@,
        #[trigger] text::texts(names@)[j],
    ) by {
        assert(!text::begins(title@, names@[j]@));
    }
    false
}

fn user_words(titles: &NameSet, title_lower: &str) -> (result: bool)
    ensures
        result == user_words_match(*titles, title_lower@),
{
    let mut i: usize = 0;
    while i < titles.names.len()
        invariant
            i <= titles.names@.len(),
            forall|j: int|
                0 <= j < i ==> !((#[trigger] titles.names@[j])@.len() > 0 && text::holds_text(
                    title_lower@,
                    titles.names@[j]@,
                )),
        decreases titles.names@.len() - i,
    {
        if text::chars_of(&titles.names[i]).len() > 0 && text::contains(
            title_lower,
            &titles.names[i],
        ) {
            return true;
        }
        i = i + 1;
    }
    false
}

/// The window is not captured.
pub fn is_excluded(info: &ActiveWindowInfo, settings: &ExclusionSettings, facts: &WindowFacts) -> (result:
    bool)
    ensures
        result == excluded(info.title@, *settings, *facts),
{
    let title = &info.title;
    if text::chars_of(title).len() == 0 {
        return true;
    }
    let title_lower = text::to_lowercase(title);
    if title_holds(title, &settings.exclusion_keywords) {
        return true;
    }
    if title_begins(title, &settings.exclusion_titles) {
        return true;
    }
    if user_words(&settings.user_excluded_titles, &title_lower) {
        return true;
    }
    if settings.ignore_protected_windows && facts.protected {
        return true;
    }
    match &facts.process_path {
        Some(path) => {
            let name = get_process_name_from_path(path);
            if text::chars_of(&name).len() > 0 && settings.user_excluded_processes.contains(&name) {
                return true;
            }
        },
        None => {},
    }
    let browsers: Vec<&'static str> = vec!["edge", "chrome", "firefox", "browser", "浏览器"];
    let flags: Vec<&'static str> = vec![
        "--incognito",
        "-inprivate",
        "-private",
        "--private-window",
    ];
    assert(text::views(browsers@) =~= browser_words());
    assert(text::views(flags@) =~= private_flags());
    if text::holds_one_of(&title_lower, &browsers) {
        match &facts.command_line {
            Some(line) => {
                if text::holds_one_of(line, &flags) {
                    return true;
                }
            },
            None => {},
        }
    }
    false
}

/// The window session that frames come from: its window, its size and the last
/// capture.
#[derive(Debug)]
pub struct WgcCaptureSession {
    pub hwnd: i64,
    pub width: i32,
    pub height: i32,
    pub last_image: Option<CapturedImage>,
}

/// What came of waiting for a frame.
#[derive(Debug)]
pub enum FrameEvent {
    /// The window did not change what it shows.
    TimedOut,
    /// The frame could not be read.
    Failed,
    /// A frame came.
    Arrived { frame: Frame },
}

/// A frame: the size of what it shows, the size of its texture, and the bytes
/// of the texture, in rows of `pitch` bytes.
#[derive(Debug)]
pub struct Frame {
    pub content: (u32, u32),
    pub texture: (u32, u32),
    pub pitch: usize,
    pub raw: Vec<u8>,
}

impl Frame {
    /// A frame is used if it shows something, and its texture has its size.
    pub open spec fn usable(&self) -> bool {
        self.content.0 != 0 && self.content.1 != 0 && self.content == self.texture
    }

    /// The texture is there in full, and its pixels fit into memory.
    pub open spec fn complete(&self) -> bool {
        &&& 4 * self.content.0 <= self.pitch
        &&& self.pitch * self.content.1 <= self.raw@.len()
        &&& 16 * self.content.0 * self.content.1 <= isize::MAX
    }

    /// The pixels.
    pub open spec fn rgb(&self) -> Seq<u8> {
        images::rgb_of(
            self.raw@,
            self.pitch as nat,
            self.content.0 as nat,
            self.content.1 as nat,
        )
    }
}

/// The longer side.
pub open spec fn longer(width: u32, height: u32) -> u32 {
    if width < height {
        height
    } else {
        width
    }
}

/// A capture of this size is made smaller.
pub fn needs_scaling(width: u32, height: u32, max_side: u32) -> (result: bool)
    ensures
        result == (longer(width, height) > max_side),
{
    if width < height {
        height > max_side
    } else {
        width > max_side
    }
}

/// A side of the box is that of the capture in the proportion of the longest
/// allowed side to the longer side: at most a pixel more, and at most two less.
pub open spec fn side_shrinks(scaled: u32, side: u32, longer_side: u32, max_side: u32) -> bool {
    &&& scaled <= max_side
    &&& scaled * longer_side <= side * max_side + longer_side
    &&& side * max_side <= scaled * longer_side + 2 * longer_side
}

/// The box that a capture is made to fit into has its proportions, and no side
/// over the longest allowed one.
pub open spec fn box_shrinks(size: (u32, u32), width: u32, height: u32, max_side: u32) -> bool {
    &&& side_shrinks(size.0, width, longer(width, height), max_side)
    &&& side_shrinks(size.1, height, longer(width, height), max_side)
}

fn check_side(scaled: u32, side: u32, longer_side: u32, max_side: u32) -> (result: bool)
    ensures
        result == side_shrinks(scaled, side, longer_side, max_side),
{
    proof {
        assert(scaled * longer_side <= u32::MAX * u32::MAX) by (nonlinear_arith)
            requires
                scaled <= u32::MAX,
                longer_side <= u32::MAX,
        ;
        assert(side * max_side <= u32::MAX * u32::MAX) by (nonlinear_arith)
            requires
                side <= u32::MAX,
                max_side <= u32::MAX,
        ;
    }
    let reached: u64 = scaled as u64 * longer_side as u64;
    let wanted: u64 = side as u64 * max_side as u64;
    scaled <= max_side && reached <= wanted + longer_side as u64 && wanted <= reached + 2
        * longer_side as u64
}

/// The box that a capture is made to fit into has its proportions.
pub fn check_box(size: (u32, u32), width: u32, height: u32, max_side: u32) -> (result: bool)
    ensures
        result == box_shrinks(size, width, height, max_side),
{
    let longer_side: u32 = if width < height {
        height
    } else {
        width
    };
    check_side(size.0, width, longer_side, max_side) && check_side(
        size.1,
        height,
        longer_side,
        max_side,
    )
}

proof fn lemma_side_shrinks(scaled: u32, side: u32, longer_side: u32, max_side: u32)
    requires
        side_shrinks(scaled, side, longer_side, max_side),
        0 < side <= longer_side,
        max_side < longer_side,
    ensures
        scaled <= side,
{
    assert(scaled <= side) by (nonlinear_arith)
        requires
            scaled * longer_side <= side * max_side + longer_side,
            0 < side <= longer_side,
            max_side + 1 <= longer_side,
    ;
}

/// The images that wait to be read, by screenshot.
#[derive(Debug)]
pub struct OcrImageCache {
    pub images: HashMap<i64, Vec<u8>>,
}

impl OcrImageCache {
    /// A cache without images.
    pub fn new() -> (result: Self)
        ensures
            result.images@ == Map::<i64, Vec<u8>>::empty(),
    {
        OcrImageCache { images: HashMap::new() }
    }

    /// The image of a screenshot.
    pub fn get(&self, id: i64) -> (result: Option<&Vec<u8>>)
        ensures
            match result {
                Some(bytes) => self.images@.dom().contains(id) && *bytes == self.images@[id],
                None => !self.images@.dom().contains(id),
            },
    {
        broadcast use vstd::std_specs::hash::group_hash_axioms;

        self.images.get(&id)
    }

    /// Puts the image of a screenshot in.
    pub fn insert(&mut self, id: i64, bytes: Vec<u8>)
        ensures
            final(self).images@ == old(self).images@.insert(id, bytes),
    {
        broadcast use vstd::std_specs::hash::group_hash_axioms;

        self.images.insert(id, bytes);
    }

    /// Takes the image of a screenshot out.
    pub fn remove(&mut self, id: i64)
        ensures
            final(self).images@ == old(self).images@.remove(id),
    {
        broadcast use vstd::std_specs::hash::group_hash_axioms;

        self.images.remove(&id);
    }
}

/// How capturing stands.
#[derive(Debug)]
pub struct CaptureState {
    pub paused: bool,
    pub stopped: bool,
    pub config: CaptureConfig,
    pub exclusion_settings: ExclusionSettings,
    pub in_flight_ocr_count: u32,
    pub capture_on_ocr_busy: bool,
    pub ocr_queue_max_size: u32,
    pub ocr_image_cache: OcrImageCache,
    pub wgc_state: Option<WgcCaptureSession>,
    /// A full-screen program that is no browser is in front.
    pub game_mode_capture_paused: bool,
}

impl Default for CaptureState {
    fn default() -> (result: Self)
        ensures
            result.is_new(),
    {
        CaptureState::new()
    }
}

impl CaptureState {
    /// Nothing was set or done yet.
    pub open spec fn is_new(&self) -> bool {
        &&& !self.paused
        &&& !self.stopped
        &&& self.config == (CaptureConfig {
            interval_secs: 10,
            polling_rate_ms: 500,
            max_side: 1600,
            jpeg_quality: 65,
            dhash_threshold: 10,
            dhash_history_size: 3,
        })
        &&& text::texts(self.exclusion_settings.exclusion_keywords@) == private_words()
        &&& text::texts(self.exclusion_settings.exclusion_titles@) == empty_titles()
        &&& forall|n: Seq<char>| !#[trigger] self.exclusion_settings.user_excluded_processes.has(n)
        &&& forall|n: Seq<char>| !#[trigger] self.exclusion_settings.user_excluded_titles.has(n)
        &&& self.exclusion_settings.ignore_protected_windows
        &&& self.in_flight_ocr_count == 0
        &&& !self.capture_on_ocr_busy
        &&& self.ocr_queue_max_size == 1
        &&& self.ocr_image_cache.images@ == Map::<i64, Vec<u8>>::empty()
        &&& self.wgc_state is None
        &&& !self.game_mode_capture_paused
    }

    pub fn new() -> (result: Self)
        ensures
            result.is_new(),
    {
        CaptureState {
            paused: false,
            stopped: false,
            config: CaptureConfig::default(),
            exclusion_settings: ExclusionSettings::default(),
            in_flight_ocr_count: 0,
            capture_on_ocr_busy: false,
            ocr_queue_max_size: 1,
            ocr_image_cache: OcrImageCache::new(),
            wgc_state: None,
            game_mode_capture_paused: false,
        }
    }

    /// Lets the window session go.
    pub fn clear_wgc_session(&mut self)
        ensures
            *final(self) == (CaptureState { wgc_state: None, ..*old(self) }),
    {
        self.wgc_state = None;
    }

    /// The session serves this window in this size.
    pub open spec fn serves(&self, hwnd: i64, size: Option<(i32, i32)>) -> bool {
        match self.wgc_state {
            Some(session) => session.hwnd == hwnd && size == Some((session.width, session.height)),
            None => false,
        }
    }

    /// A session is made anew for another window, and when the window changed
    /// its size or cannot tell it.
    pub fn need_create(&self, hwnd: i64, size: Option<(i32, i32)>) -> (result: bool)
        ensures
            result == !self.serves(hwnd, size),
    {
        match &self.wgc_state {
            Some(session) => if session.hwnd != hwnd {
                true
            } else {
                match size {
                    Some((width, height)) => width != session.width || height != session.height,
                    None => true,
                }
            },
            None => true,
        }
    }

    /// A session is begun for a window of this size. A window without an extent
    /// gets none.
    pub fn begin_session(&mut self, hwnd: i64, size: Option<(i32, i32)>) -> (result: bool)
        ensures
            result == (size matches Some(s) && s.0 > 0 && s.1 > 0),
            *final(self) == (CaptureState { wgc_state: final(self).wgc_state, ..*old(self) }),
            match final(self).wgc_state {
                Some(session) => {
                    &&& result
                    &&& session.hwnd == hwnd
                    &&& size == Some((session.width, session.height))
                    &&& session.last_image is None
                },
                None => !result,
            },
    {
        match size {
            Some((width, height)) => if width > 0 && height > 0 {
                self.wgc_state = Some(WgcCaptureSession { hwnd, width, height, last_image: None });
                true
            } else {
                self.wgc_state = None;
                false
            },
            None => {
                self.wgc_state = None;
                false
            },
        }
    }

    /// This is what a frame turns the state before into, and the capture that
    /// comes of it. `scaled` is the box that the frame is made to fit into.
    pub open spec fn took(
        &self,
        before: CaptureState,
        event: FrameEvent,
        scaled: Option<(u32, u32)>,
        quality: u8,
        result: Option<CapturedImage>,
    ) -> bool {
        &&& *self == (CaptureState { wgc_state: self.wgc_state, ..before })
        &&& match event {
            FrameEvent::TimedOut => {
                &&& self.wgc_state == before.wgc_state
                &&& match (result, before.wgc_state->0.last_image) {
                    (Some(captured), Some(last)) => captured.same(last),
                    (None, None) => true,
                    _ => false,
                }
            },
            FrameEvent::Failed => self.wgc_state is None && result is None,
            FrameEvent::Arrived { frame } => {
                &&& if frame.usable() {
                    images::capture_encoded(
                        frame.rgb(),
                        frame.content.0,
                        frame.content.1,
                        scaled,
                        quality,
                        result,
                    )
                } else {
                    result is None
                }
                &&& match (result, self.wgc_state) {
                    (Some(captured), Some(session)) => {
                        &&& session == (WgcCaptureSession {
                            last_image: session.last_image,
                            ..before.wgc_state->0
                        })
                        &&& session.last_image is Some
                        &&& session.last_image->0.same(captured)
                    },
                    (None, None) => true,
                    _ => false,
                }
            },
        }
    }

    /// Turns what came of waiting for a frame into a capture. Where no frame
    /// came, the last capture stands; where one came that cannot be used, the
    /// session is let go. `scaled` is the box that a frame that is too large is
    /// made to fit into.
    pub fn take_frame(
        &mut self,
        event: FrameEvent,
        scaled: Option<(u32, u32)>,
        quality: u8,
    ) -> (result: Option<CapturedImage>)
        requires
            old(self).wgc_state is Some,
            event matches FrameEvent::Arrived { frame } ==> frame.usable() ==> {
                &&& frame.complete()
                &&& scaled matches Some(size) ==> size.0 <= frame.content.0 && size.1
                    <= frame.content.1
            },
        ensures
            final(self).took(*old(self), event, scaled, quality, result),
    {
        match event {
            FrameEvent::TimedOut => match &self.wgc_state {
                Some(session) => match &session.last_image {
                    Some(last) => Some(last.copy()),
                    None => None,
                },
                None => None,
            },
            FrameEvent::Failed => {
                self.wgc_state = None;
                None
            },
            FrameEvent::Arrived { frame } => {
                let (width, height) = frame.content;
                let taken = self.wgc_state.take();
                if width == 0 || height == 0 || width != frame.texture.0 || height
                    != frame.texture.1 {
                    return None;
                }
                proof {
                    assert(3 * width * height <= 16 * width * height) by (nonlinear_arith);
                }
                let rgb = bgra_to_rgb(frame.raw.as_slice(), frame.pitch, width, height);
                match encode_capture(rgb, width, height, scaled, quality) {
                    Some(captured) => {
                        match taken {
                            Some(session) => {
                                self.wgc_state = Some(
                                    WgcCaptureSession {
                                        last_image: Some(captured.copy()),
                                        ..session
                                    },
                                );
                            },
                            None => {},
                        }
                        Some(captured)
                    },
                    None => None,
                }
            },
        }
    }

    /// Turns what came of waiting for a frame into a capture. A frame whose
    /// longer side is over `max_side` is made to fit into `smaller`; a frame that
    /// is small enough keeps its size.
    pub fn capture_frame(
        &mut self,
        event: FrameEvent,
        smaller: (u32, u32),
        max_side: u32,
        quality: u8,
    ) -> (result: Option<CapturedImage>)
        requires
            old(self).wgc_state is Some,
            event matches FrameEvent::Arrived { frame } ==> frame.usable() ==> {
                &&& frame.complete()
                &&& longer(frame.content.0, frame.content.1) > max_side ==> box_shrinks(
                    smaller,
                    frame.content.0,
                    frame.content.1,
                    max_side,
                )
            },
        ensures
            final(self).took(
                *old(self),
                event,
                match event {
                    FrameEvent::Arrived { frame } => if longer(frame.content.0, frame.content.1)
                        > max_side {
                        Some(smaller)
                    } else {
                        None
                    },
                    _ => None,
                },
                quality,
                result,
            ),
    {
        let scaled: Option<(u32, u32)> = match &event {
            FrameEvent::Arrived { frame } => {
                let (width, height) = frame.content;
                if needs_scaling(width, height, max_side) {
                    proof {
                        if frame.usable() {
                            let side = longer(width, height);
                            lemma_side_shrinks(smaller.0, width, side, max_side);
                            lemma_side_shrinks(smaller.1, height, side, max_side);
                        }
                    }
                    Some(smaller)
                } else {
                    None
                }
            },
            _ => None,
        };
        self.take_frame(event, scaled, quality)
    }

    /// The state before with new exclusions; what is not given stays.
    pub open spec fn updated(
        &self,
        before: CaptureState,
        processes: Option<Seq<Seq<char>>>,
        titles: Option<Seq<Seq<char>>>,
        ignore_protected: Option<bool>,
    ) -> bool {
        &&& *self == (CaptureState { exclusion_settings: self.exclusion_settings, ..before })
        &&& self.exclusion_settings.exclusion_keywords
            == before.exclusion_settings.exclusion_keywords
        &&& self.exclusion_settings.exclusion_titles == before.exclusion_settings.exclusion_titles
        &&& match processes {
            Some(list) => forall|n: Seq<char>| #[trigger]
                self.exclusion_settings.user_excluded_processes.has(n) == listed_in(list, n),
            None => self.exclusion_settings.user_excluded_processes
                == before.exclusion_settings.user_excluded_processes,
        }
        &&& match titles {
            Some(list) => forall|n: Seq<char>| #[trigger]
                self.exclusion_settings.user_excluded_titles.has(n) == listed_in(list, n),
            None => self.exclusion_settings.user_excluded_titles
                == before.exclusion_settings.user_excluded_titles,
        }
        &&& self.exclusion_settings.ignore_protected_windows == match ignore_protected {
            Some(ignore) => ignore,
            None => before.exclusion_settings.ignore_protected_windows,
        }
    }

    /// Takes over the exclusions in the text of a settings file. A text that is
    /// no JSON changes nothing; what is missing or of another type stays, and
    /// what is no text in a list is passed over.
    pub fn read_exclusion_settings(&mut self, content: &str)
        ensures
            match json::json_document(content@) {
                Err(_) => *final(self) == *old(self),
                Ok(document) => {
                    let fields = json::fields_of(document);
                    final(self).updated(
                        *old(self),
                        json::texts_field(fields, "processes"@),
                        json::texts_field(fields, "titles"@),
                        json::flag_field(fields, "ignore_protected"@),
                    )
                },
            },
    {
        match json::parse_document(content) {
            Ok(document) => {
                let processes = document.get_texts("processes");
                let titles = document.get_texts("titles");
                let ignore_protected = document.get_flag("ignore_protected");
                proof {
                    if processes is Some {
                        lemma_listed(processes->0@);
                    }
                    if titles is Some {
                        lemma_listed(titles->0@);
                    }
                }
                self.update_exclusion_settings(processes, titles, ignore_protected);
            },
            Err(_) => {},
        }
    }

    /// The text of a settings file with the exclusions. What is read from it is
    /// what is excluded.
    pub fn exclusion_text(&self) -> (result: Option<String>)
        ensures
            result is Some,
            json::pretty_object(
                "processes"@,
                text::texts(self.exclusion_settings.user_excluded_processes.names@),
                "titles"@,
                text::texts(self.exclusion_settings.user_excluded_titles.names@),
                "ignore_protected"@,
                self.exclusion_settings.ignore_protected_windows,
            ) == Some(result->0@),
            match json::json_document(result->0@) {
                Ok(document) => {
                    let fields = json::fields_of(document);
                    &&& json::texts_field(fields, "processes"@) == Some(
                        text::texts(self.exclusion_settings.user_excluded_processes.names@),
                    )
                    &&& json::texts_field(fields, "titles"@) == Some(
                        text::texts(self.exclusion_settings.user_excluded_titles.names@),
                    )
                    &&& json::flag_field(fields, "ignore_protected"@) == Some(
                        self.exclusion_settings.ignore_protected_windows,
                    )
                },
                Err(_) => false,
            },
    {
        proof {
            reveal_strlit("processes");
            reveal_strlit("titles");
            reveal_strlit("ignore_protected");
            assert("processes"@.len() == 9);
            assert("titles"@.len() == 6);
            assert("ignore_protected"@.len() == 16);
        }
        json::write_object(
            "processes",
            &self.exclusion_settings.user_excluded_processes.names,
            "titles",
            &self.exclusion_settings.user_excluded_titles.names,
            "ignore_protected",
            self.exclusion_settings.ignore_protected_windows,
        )
    }

    /// Takes new exclusions over; what is not given stays.
    pub fn update_exclusion_settings(
        &mut self,
        processes: Option<Vec<String>>,
        titles: Option<Vec<String>>,
        ignore_protected: Option<bool>,
    )
        ensures
            *final(self) == (CaptureState {
                exclusion_settings: final(self).exclusion_settings,
                ..*old(self)
            }),
            final(self).exclusion_settings.exclusion_keywords == old(
                self,
            ).exclusion_settings.exclusion_keywords,
            final(self).exclusion_settings.exclusion_titles == old(
                self,
            ).exclusion_settings.exclusion_titles,
            match processes {
                Some(list) => forall|n: Seq<char>| #[trigger]
                    final(self).exclusion_settings.user_excluded_processes.has(n) == listed(
                        list@,
                        n,
                    ),
                None => final(self).exclusion_settings.user_excluded_processes == old(
                    self,
                ).exclusion_settings.user_excluded_processes,
            },
            match titles {
                Some(list) => forall|n: Seq<char>| #[trigger]
                    final(self).exclusion_settings.user_excluded_titles.has(n) == listed(list@, n),
                None => final(self).exclusion_settings.user_excluded_titles == old(
                    self,
                ).exclusion_settings.user_excluded_titles,
            },
            final(self).exclusion_settings.ignore_protected_windows == match ignore_protected {
                Some(ignore) => ignore,
                None => old(self).exclusion_settings.ignore_protected_windows,
            },
    {
        self.exclusion_settings.update(processes, titles, ignore_protected);
    }

    /// A screenshot is about to be read.
    pub fn begin_ocr(&mut self, screenshot_id: i64, jpeg_bytes: Vec<u8>) -> (result: u32)
        requires
            old(self).in_flight_ocr_count < u32::MAX,
        ensures
            result == old(self).in_flight_ocr_count + 1,
            final(self).ocr_image_cache.images@ == old(self).ocr_image_cache.images@.insert(
                screenshot_id,
                jpeg_bytes,
            ),
            *final(self) == (CaptureState {
                in_flight_ocr_count: result,
                ocr_image_cache: final(self).ocr_image_cache,
                ..*old(self)
            }),
    {
        self.in_flight_ocr_count = self.in_flight_ocr_count + 1;
        self.ocr_image_cache.insert(screenshot_id, jpeg_bytes);
        self.in_flight_ocr_count
    }

    /// A screenshot was read, or could not be.
    pub fn end_ocr(&mut self, screenshot_id: i64) -> (result: u32)
        requires
            old(self).in_flight_ocr_count > 0,
        ensures
            result == old(self).in_flight_ocr_count - 1,
            final(self).ocr_image_cache.images@ == old(self).ocr_image_cache.images@.remove(
                screenshot_id,
            ),
            *final(self) == (CaptureState {
                in_flight_ocr_count: result,
                ocr_image_cache: final(self).ocr_image_cache,
                ..*old(self)
            }),
    {
        self.ocr_image_cache.remove(screenshot_id);
        self.in_flight_ocr_count = self.in_flight_ocr_count - 1;
        self.in_flight_ocr_count
    }

    /// Whether the loop may go on.
    pub fn gate(&self) -> (result: LoopGate)
        ensures
            result == if self.stopped {
                LoopGate::Stop
            } else if self.paused || self.game_mode_capture_paused {
                LoopGate::Skip
            } else {
                LoopGate::Go
            },
    {
        if self.stopped {
            LoopGate::Stop
        } else if self.paused || self.game_mode_capture_paused {
            LoopGate::Skip
        } else {
            LoopGate::Go
        }
    }

    /// The readings that are under way leave room for another capture.
    pub open spec fn has_capacity(&self) -> bool {
        if self.capture_on_ocr_busy {
            self.in_flight_ocr_count <= self.ocr_queue_max_size
        } else {
            self.in_flight_ocr_count == 0
        }
    }
}

/// Whether a turn of the loop goes on.
#[derive(Debug, Clone, Copy, PartialEq, Eq, Structural)]
pub enum LoopGate {
    /// The loop ends.
    Stop,
    /// This turn ends.
    Skip,
    /// The turn goes on.
    Go,
}

/// What a turn of the loop does about the window in front.
#[derive(Debug, Clone, Copy, PartialEq, Eq, Structural)]
pub enum Trigger {
    /// Nothing.
    Skip,
    /// The window is new: it is captured once it has settled.
    FocusChange,
    /// It is time.
    Interval,
}

impl Trigger {
    /// How long to wait before the capture, in milliseconds.
    pub fn settle_ms(self) -> (result: u64)
        ensures
            result == if self == Trigger::FocusChange {
                500u64
            } else {
                0
            },
    {
        match self {
            Trigger::FocusChange => 500,
            Trigger::Interval => 0,
            Trigger::Skip => 0,
        }
    }

    pub fn as_str(self) -> (result: &'static str)
        ensures
            result@ == match self {
                Trigger::Skip => ""@,
                Trigger::FocusChange => "focus_change"@,
                Trigger::Interval => "interval"@,
            },
    {
        match self {
            Trigger::Skip => "",
            Trigger::FocusChange => "focus_change",
            Trigger::Interval => "interval",
        }
    }
}

/// What the loop remembers between turns. Times are in milliseconds.
#[derive(Debug)]
pub struct CaptureLoop {
    pub config: CaptureConfig,
    pub last_hwnd_raw: i64,
    pub last_capture_time: u64,
    pub force_first_capture: bool,
    pub history_hashes: Vec<DHash>,
}

/// How a turn that took a capture ends.
#[derive(Debug, Clone, Copy, PartialEq, Eq, Structural)]
pub enum SaveOutcome {
    /// It was stored under this number, and is read next.
    Stored { screenshot_id: i64 },
    /// It was not stored.
    Dropped,
}

impl CaptureLoop {
    /// The loop begins; its first capture does not wait.
    pub fn new(config: CaptureConfig, now: u64) -> (result: Self)
        ensures
            result.config == config,
            result.last_hwnd_raw == 0,
            result.last_capture_time == if now < 999_000 {
                now
            } else {
                (now - 999_000) as u64
            },
            result.force_first_capture,
            result.history_hashes@.len() == 0,
    {
        CaptureLoop {
            config,
            last_hwnd_raw: 0,
            last_capture_time: if now < 999_000 {
                now
            } else {
                now - 999_000
            },
            force_first_capture: true,
            history_hashes: Vec::new(),
        }
    }

    /// It is time for a capture of a window that stayed in front.
    pub open spec fn due(&self, now: u64) -> bool {
        self.force_first_capture || (if now < self.last_capture_time {
            0
        } else {
            (now - self.last_capture_time) / 1000
        }) >= self.config.interval_secs
    }

    /// What a turn does about the window in front.
    pub open spec fn triggered(
        &self,
        state: CaptureState,
        hwnd: i64,
        excluded: bool,
        now: u64,
    ) -> Trigger {
        if excluded || !state.has_capacity() {
            Trigger::Skip
        } else if hwnd != self.last_hwnd_raw {
            Trigger::FocusChange
        } else if self.due(now) && state.in_flight_ocr_count <= state.ocr_queue_max_size {
            Trigger::Interval
        } else {
            Trigger::Skip
        }
    }

    /// What a turn does about the window in front, and what it remembers.
    pub open spec fn turned(
        before: Self,
        after: Self,
        state: &CaptureState,
        hwnd: i64,
        excluded: bool,
        now: u64,
        result: Trigger,
    ) -> bool {
        &&& result == before.triggered(*state, hwnd, excluded, now)
        &&& after == if result == Trigger::Skip {
            CaptureLoop { last_hwnd_raw: hwnd, ..before }
        } else {
            CaptureLoop { force_first_capture: false, ..before }
        }
    }

    /// What a turn does about the window in front. Where nothing is captured,
    /// the window is remembered all the same.
    pub fn trigger(&mut self, state: &CaptureState, hwnd: i64, excluded: bool, now: u64) -> (result:
        Trigger)
        ensures
            Self::turned(*old(self), *final(self), state, hwnd, excluded, now, result),
    {
        if excluded {
            self.last_hwnd_raw = hwnd;
            return Trigger::Skip;
        }
        let in_flight: u32 = state.in_flight_ocr_count;
        let mut trigger = Trigger::Skip;
        if hwnd != self.last_hwnd_raw {
            let free = if state.capture_on_ocr_busy {
                in_flight <= state.ocr_queue_max_size
            } else {
                in_flight == 0
            };
            if free {
                trigger = Trigger::FocusChange;
            }
        } else {
            let elapsed: u64 = now.saturating_sub(self.last_capture_time) / 1000;
            if self.force_first_capture || elapsed >= self.config.interval_secs {
                if (state.capture_on_ocr_busy || in_flight == 0) && in_flight
                    <= state.ocr_queue_max_size {
                    trigger = Trigger::Interval;
                }
            }
        }
        if trigger == Trigger::Skip {
            self.last_hwnd_raw = hwnd;
        } else {
            self.force_first_capture = false;
        }
        trigger
    }

    /// The window could not be captured.
    pub fn missed(&mut self, hwnd: i64)
        ensures
            *final(self) == (CaptureLoop { last_hwnd_raw: hwnd, ..*old(self) }),
    {
        self.last_hwnd_raw = hwnd;
    }

    /// The hashes that are remembered once this one came: the oldest makes room
    /// where there are too many.
    pub open spec fn remembered(history: Seq<DHash>, hash: DHash, size: nat) -> Seq<DHash> {
        let longer = history.push(hash);
        if longer.len() > size {
            longer.drop_first()
        } else {
            longer
        }
    }

    /// A capture was taken: one that differs too little from the last ones is
    /// dropped, any other is remembered. Tells whether it is kept.
    pub fn captured(&mut self, hwnd: i64, hash: DHash, now: u64) -> (result:
        bool)
        ensures
            result == !images::redundant(
                hash,
                old(self).history_hashes@,
                old(self).config.dhash_threshold,
            ),
            if result {
                &&& final(self).history_hashes@ == CaptureLoop::remembered(
                    old(self).history_hashes@,
                    hash,
                    old(self).config.dhash_history_size as nat,
                )
                &&& *final(self) == (CaptureLoop {
                    history_hashes: final(self).history_hashes,
                    ..*old(self)
                })
            } else {
                *final(self) == (CaptureLoop {
                    last_capture_time: now,
                    last_hwnd_raw: hwnd,
                    ..*old(self)
                })
            },
    {
        if is_redundant(&hash, &self.history_hashes, self.config.dhash_threshold) {
            self.finished(hwnd, now);
            return false;
        }
        let ghost before = self.history_hashes@;
        self.history_hashes.push(hash);
        if self.history_hashes.len() > self.config.dhash_history_size {
            self.history_hashes.remove(0);
            assert(self.history_hashes@ =~= before.push(hash).drop_first());
        }
        true
    }

    /// A turn that took a capture is over.
    pub fn finished(&mut self, hwnd: i64, now: u64)
        ensures
            *final(self) == (CaptureLoop {
                last_capture_time: now,
                last_hwnd_raw: hwnd,
                ..*old(self)
            }),
    {
        self.last_capture_time = now;
        self.last_hwnd_raw = hwnd;
    }

    /// The capture was handed to the store, which answered with a status and a
    /// number.
    pub fn stored(
        &mut self,
        hwnd: i64,
        answer: Result<(String, Option<i64>), String>,
        now: u64,
    ) -> (result: SaveOutcome)
        ensures
            *final(self) == (CaptureLoop {
                last_capture_time: now,
                last_hwnd_raw: hwnd,
                ..*old(self)
            }),
            result == match answer {
                Ok((status, Some(id))) => if status@ == "duplicate"@ {
                    SaveOutcome::Dropped
                } else {
                    SaveOutcome::Stored { screenshot_id: id }
                },
                _ => SaveOutcome::Dropped,
            },
    {
        self.finished(hwnd, now);
        match answer {
            Ok((status, id)) => {
                if text::same(&status, "duplicate") {
                    return SaveOutcome::Dropped;
                }
                match id {
                    Some(screenshot_id) => SaveOutcome::Stored { screenshot_id },
                    None => SaveOutcome::Dropped,
                }
            },
            Err(_) => SaveOutcome::Dropped,
        }
    }
}

/// Unless captures are wanted while screenshots are read, nothing is captured
/// as long as one is; and never while more are read than the queue holds.
pub proof fn law_busy_reader_is_waited_for(
    turn: CaptureLoop,
    state: CaptureState,
    hwnd: i64,
    excluded: bool,
    now: u64,
)
    ensures
        !state.capture_on_ocr_busy && state.in_flight_ocr_count > 0 ==> turn.triggered(
            state,
            hwnd,
            excluded,
            now,
        ) == Trigger::Skip,
        state.in_flight_ocr_count > state.ocr_queue_max_size ==> turn.triggered(
            state,
            hwnd,
            excluded,
            now,
        ) == Trigger::Skip,
{
}

/// The loop never remembers more hashes than it is told to.
pub proof fn law_history_is_bounded(history: Seq<DHash>, hash: DHash, size: nat)
    requires
        history.len() <= size,
    ensures
        CaptureLoop::remembered(history, hash, size).len() <= size,
{
}

/// The newest hash is remembered last, and of the earlier ones only the oldest
/// is ever forgotten, where there are too many.
pub proof fn law_the_oldest_hash_is_forgotten(history: Seq<DHash>, hash: DHash, size: nat, i: int)
    requires
        0 < size,
    ensures
        ({
            let after = CaptureLoop::remembered(history, hash, size);
            let gone: int = if history.len() < size {
                0
            } else {
                1
            };
            &&& after.len() == history.len() + 1 - gone
            &&& after.last() == hash
            &&& gone <= i < history.len() ==> after[i - gone] == history[i]
        }),
{
}

/// A capture that was just remembered is redundant if it is taken again.
pub proof fn law_repeats_are_redundant(history: Seq<DHash>, hash: DHash, size: nat, threshold: u32)
    requires
        size > 0,
        threshold > 0,
    ensures
        images::redundant(hash, CaptureLoop::remembered(history, hash, size), threshold),
{
    let after = CaptureLoop::remembered(history, hash, size);
    images::law_distance_tells_hashes_apart(hash, hash);
    if history.len() == 0 {
        assert(after[0] == hash);
    } else {
        assert(after[after.len() - 1] == hash);
    }
}

/// The icons that were read, by path. Where none could be read, that is
/// remembered too.
#[derive(Debug)]
pub struct IconCache {
    pub icons: Vec<(String, Option<String>)>,
}

impl IconCache {
    /// What is known of the icon of a path.
    pub open spec fn known(&self, path: Seq<char>, i: int) -> bool {
        &&& 0 <= i < self.icons@.len()
        &&& self.icons@[i].0@ == path
        &&& forall|j: int| 0 <= j < i ==> (#[trigger] self.icons@[j]).0@ != path
    }

    pub fn new() -> (result: Self)
        ensures
            result.icons@.len() == 0,
    {
        IconCache { icons: Vec::new() }
    }

    /// What is known of the icon of a path.
    pub fn get(&self, path: &str) -> (result: Option<&Option<String>>)
        ensures
            match result {
                Some(icon) => exists|i: int| #[trigger]
                    self.known(path@, i) && *icon == self.icons@[i].1,
                None => forall|i: int|
                    0 <= i < self.icons@.len() ==> (#[trigger] self.icons@[i]).0@ != path@,
            },
    {
        let mut i: usize = 0;
        while i < self.icons.len()
            invariant
                i <= self.icons@.len(),
                forall|j: int| 0 <= j < i ==> (#[trigger] self.icons@[j]).0@ != path@,
            decreases self.icons@.len() - i,
        {
            if text::same(&self.icons[i].0, path) {
                assert(self.known(path@, i as int));
                return Some(&self.icons[i].1);
            }
            i = i + 1;
        }
        None
    }

    /// Remembers the icon of a path that was not known.
    pub fn insert(&mut self, path: &str, icon: Option<String>)
        ensures
            final(self).icons@.len() == old(self).icons@.len() + 1,
            final(self).icons@.drop_last() == old(self).icons@,
            final(self).icons@.last().0@ == path@,
            final(self).icons@.last().1 == icon,
    {
        let ghost before = self.icons@;
        self.icons.push((path.to_owned(), icon));
        assert(self.icons@.drop_last() =~= before);
    }
}

/// The extent of a rectangle.
pub fn extent(rect: ScreenRect) -> (result: (i32, i32))
    requires
        i32::MIN <= rect.right - rect.left <= i32::MAX,
        i32::MIN <= rect.bottom - rect.top <= i32::MAX,
    ensures
        result.0 == rect.right - rect.left,
        result.1 == rect.bottom - rect.top,
{
    (rect.right - rect.left, rect.bottom - rect.top)
}

/// What is stored of a capture, before it was read.
#[derive(Debug)]
pub struct SaveScreenshotRequest {
    pub image_data: String,
    pub image_hash: String,
    pub width: i32,
    pub height: i32,
    pub window_title: String,
    pub process_name: String,
    pub process_path: String,
    pub process_icon: Option<String>,
    /// The rectangle of the window: its left and upper edge, width and height.
    pub monitor: (i32, i32, i32, i32),
    pub timestamp: String,
    pub source: &'static str,
}

/// What is stored of a capture of this window. Nothing is known of a program
/// whose path is not.
pub fn save_request(
    captured: &CapturedImage,
    info: &ActiveWindowInfo,
    process_path: &str,
    process_icon: Option<String>,
    timestamp: String,
) -> (result: SaveScreenshotRequest)
    requires
        captured.jpeg_bytes@.len() <= usize::MAX / 4,
        i32::MIN <= info.rect.right - info.rect.left <= i32::MAX,
        i32::MIN <= info.rect.bottom - info.rect.top <= i32::MAX,
        captured.width <= i32::MAX,
        captured.height <= i32::MAX,
    ensures
        result.image_data@ == images::base64_text(captured.jpeg_bytes@),
        result.image_hash@ == digest::hex_text(digest::md5_of(captured.jpeg_bytes@)),
        result.width == captured.width,
        result.height == captured.height,
        result.window_title@ == info.title@,
        result.process_name@ == if process_path@.len() == 0 {
            Seq::empty()
        } else {
            text::lowercase_of(file_name(process_path@, after_drive(process_path@)))
        },
        result.process_path@ == process_path@,
        result.process_icon == process_icon,
        result.monitor == (
            info.rect.left,
            info.rect.top,
            (info.rect.right - info.rect.left) as i32,
            (info.rect.bottom - info.rect.top) as i32,
        ),
        result.timestamp == timestamp,
        result.source@ == "capture"@,
{
    let (width, height) = extent(info.rect);
    let process_name = if text::chars_of(process_path).len() == 0 {
        String::new()
    } else {
        get_process_name_from_path(process_path)
    };
    SaveScreenshotRequest {
        image_data: images::image_data(&captured.jpeg_bytes),
        image_hash: digest::md5_hash(&captured.jpeg_bytes),
        width: captured.width as i32,
        height: captured.height as i32,
        window_title: info.title.clone(),
        process_name,
        process_path: process_path.to_owned(),
        process_icon,
        monitor: (info.rect.left, info.rect.top, width, height),
        timestamp,
        source: "capture",
    }
}

/// What is needed to ask for a reading: the pipe and the token of the reader.
pub fn ocr_channel(pipe: Option<String>, token: Option<String>) -> (result: Result<
    (String, String),
    String,
>)
    ensures
        match result {
            Ok(channel) => pipe == Some(channel.0) && token == Some(channel.1),
            Err(e) => if pipe is None {
                e@ == "Monitor pipe not available"@
            } else {
                token is None && e@ == "Auth token not available"@
            },
        },
{
    match pipe {
        None => Err("Monitor pipe not available".to_owned()),
        Some(name) => match token {
            None => Err("Auth token not available".to_owned()),
            Some(secret) => Ok((name, secret)),
        },
    }
}

/// A request to read the texts of a screenshot. The reader fetches the image
/// by the number.
#[derive(Debug)]
pub struct OcrRequest {
    pub command: &'static str,
    pub screenshot_id: i64,
    pub image_hash: String,
    pub window_title: String,
    pub process_name: String,
    pub timestamp: i64,
}

/// The request to read a capture that was stored.
pub fn ocr_request(screenshot_id: i64, stored: &SaveScreenshotRequest, timestamp: i64) -> (result:
    OcrRequest)
    ensures
        result.command@ == "process_ocr"@,
        result.screenshot_id == screenshot_id,
        result.image_hash@ == stored.image_hash@,
        result.window_title@ == stored.window_title@,
        result.process_name@ == stored.process_name@,
        result.timestamp == timestamp,
{
    OcrRequest {
        command: "process_ocr",
        screenshot_id,
        image_hash: stored.image_hash.clone(),
        window_title: stored.window_title.clone(),
        process_name: stored.process_name.clone(),
        timestamp,
    }
}

/// What was read of a screenshot: the lines and how sure the category is, as
/// they are written, and the category.
#[derive(Debug)]
pub struct OcrReading {
    pub results: Option<String>,
    pub category: Option<String>,
    pub confidence: Option<String>,
}

/// What the reader's answer comes to. One that is no JSON is an error, and so is
/// one that tells of an error; a category that is no text is none.
pub fn ocr_answer(response: &str) -> (result: Result<OcrReading, String>)
    ensures
        match json::json_document(response@) {
            Err(why) => result matches Err(e) && e@ == why,
            Ok(document) => {
                let fields = json::fields_of(document);
                match json::text_field(fields, "error"@) {
                    Some(error) => result matches Err(e) && e@ == "Python OCR error: "@ + error,
                    None => {
                        &&& result matches Ok(reading)
                        &&& json::said(reading.results) == json::written_field(
                            fields,
                            "ocr_results"@,
                        )
                        &&& json::said(reading.category) == json::text_field(fields, "category"@)
                        &&& json::said(reading.confidence) == json::written_field(
                            fields,
                            "category_confidence"@,
                        )
                    },
                }
            },
        },
{
    let document = match json::parse_document(response) {
        Ok(document) => document,
        Err(e) => {
            return Err(e);
        },
    };
    match document.get_text("error") {
        Some(error) => Err(text::join2("Python OCR error: ", &error)),
        None => Ok(
            OcrReading {
                results: document.get_written("ocr_results"),
                category: document.get_text("category"),
                confidence: document.get_written("category_confidence"),
            },
        ),
    }
}

/// A private window of a browser is not captured: its title, in lower case,
/// holds a word that browsers have in theirs, and its command line asks for a
/// private window. Nothing else that is known of the window changes that, nor
/// do the settings.
pub proof fn law_private_browsers_are_left_out(
    title: Seq<char>,
    settings: ExclusionSettings,
    facts: WindowFacts,
    word: Seq<char>,
    word_at: int,
    flag: Seq<char>,
    flag_at: int,
)
    requires
        word == "edge"@ || word == "chrome"@ || word == "firefox"@ || word == "browser"@ || word
            == "浏览器"@,
        0 <= word_at <= word_at + word.len() <= text::lowercase_of(title).len(),
        text::lowercase_of(title).subrange(word_at, word_at + word.len()) == word,
        flag == "--incognito"@ || flag == "-inprivate"@ || flag == "-private"@ || flag
            == "--private-window"@,
        facts.command_line is Some,
        0 <= flag_at <= flag_at + flag.len() <= facts.command_line->0@.len(),
        facts.command_line->0@.subrange(flag_at, flag_at + flag.len()) == flag,
    ensures
        excluded(title, settings, facts),
{
    let lower = text::lowercase_of(title);
    let line = facts.command_line->0@;
    assert(text::occurs_at(lower, word, word_at));
    assert(text::occurs_at(line, flag, flag_at));
    let words = browser_words();
    assert(words[0] == "edge"@ && words[1] == "chrome"@ && words[2] == "firefox"@ && words[3]
        == "browser"@ && words[4] == "浏览器"@);
    let flags = private_flags();
    assert(flags[0] == "--incognito"@ && flags[1] == "-inprivate"@ && flags[2] == "-private"@
        && flags[3] == "--private-window"@);
    assert(text::holds_some(lower, words));
    assert(text::holds_some(line, flags));
}

/// What the settings list is not captured: a title that holds one of their
/// words or begins with one of their titles, a title that in lower case holds a
/// word of the user, a program of the user's list, and, where they say so, a
/// protected window. A window without a title is not captured either.
pub proof fn law_listed_windows_are_left_out(
    title: Seq<char>,
    settings: ExclusionSettings,
    facts: WindowFacts,
    entry: int,
    at: int,
)
    ensures
        title.len() == 0 ==> excluded(title, settings, facts),
        facts.protected && settings.ignore_protected_windows ==> excluded(title, settings, facts),
        0 <= entry < settings.exclusion_keywords@.len() && 0 <= at <= at
            + settings.exclusion_keywords@[entry]@.len() <= title.len() && title.subrange(
            at,
            at + settings.exclusion_keywords@[entry]@.len(),
        ) == settings.exclusion_keywords@[entry]@ ==> excluded(title, settings, facts),
        0 <= entry < settings.exclusion_titles@.len() && settings.exclusion_titles@[entry]@.len()
            <= title.len() && title.take(settings.exclusion_titles@[entry]@.len() as int)
            == settings.exclusion_titles@[entry]@ ==> excluded(title, settings, facts),
        ({
            let words = settings.user_excluded_titles.names@;
            let lower = text::lowercase_of(title);
            0 <= entry < words.len() && words[entry]@.len() > 0 && 0 <= at <= at + words[entry]@.len()
                <= lower.len() && lower.subrange(at, at + words[entry]@.len()) == words[entry]@
                ==> excluded(title, settings, facts)
        }),
{
    if 0 <= entry < settings.exclusion_keywords@.len() {
        let word = settings.exclusion_keywords@[entry]@;
        assert(text::texts(settings.exclusion_keywords@)[entry] == word);
        if text::occurs_at(title, word, at) {
            assert(text::holds_text(title, word));
        }
    }
    if 0 <= entry < settings.exclusion_titles@.len() {
        let name = settings.exclusion_titles@[entry]@;
        assert(text::texts(settings.exclusion_titles@)[entry] == name);
        if name.len() <= title.len() {
            assert(title.subrange(0, name.len() as int) =~= title.take(name.len() as int));
        }
    }
    let words = settings.user_excluded_titles.names@;
    let lower = text::lowercase_of(title);
    if 0 <= entry < words.len() && text::occurs_at(lower, words[entry]@, at) {
        assert(text::holds_text(lower, words[entry]@));
    }
}

/// A program that the user listed is not captured, wherever it lies: its name
/// is what follows the last separator of its path, in lower case.
pub proof fn law_listed_programs_are_left_out(
    title: Seq<char>,
    settings: ExclusionSettings,
    facts: WindowFacts,
    drive: char,
    directory: Seq<char>,
    name: Seq<char>,
    entry: int,
)
    requires
        'a' <= drive <= 'z' || 'A' <= drive <= 'Z',
        name.len() > 0,
        forall|i: int| 0 <= i < name.len() ==> #[trigger] name[i] != '/' && name[i] != '\\',
        name != seq!['.'],
        name != seq!['.', '.'],
        facts.process_path is Some,
        facts.process_path->0@ == seq![drive, ':'] + directory + seq!['\\'] + name,
        0 <= entry < settings.user_excluded_processes.names@.len(),
        settings.user_excluded_processes.names@[entry]@ == text::lowercase_of(name),
        text::lowercase_of(name).len() > 0,
    ensures
        excluded(title, settings, facts),
{
    law_programs_are_named_by_their_files(drive, directory, name);
}

/// The name of a program is what follows the last separator of its path.
pub proof fn law_programs_are_named_by_their_files(
    drive: char,
    directory: Seq<char>,
    name: Seq<char>,
)
    requires
        'a' <= drive <= 'z' || 'A' <= drive <= 'Z',
        name.len() > 0,
        forall|i: int| 0 <= i < name.len() ==> #[trigger] name[i] != '/' && name[i] != '\\',
        name != seq!['.'],
        name != seq!['.', '.'],
    ensures
        ({
            let path = seq![drive, ':'] + directory + seq!['\\'] + name;
            file_name(path, after_drive(path)) == name
        }),
{
    let path = seq![drive, ':'] + directory + seq!['\\'] + name;
    let start = 3 + directory.len();
    assert(path[0] == drive && path[1] == ':');
    assert(path[start - 1] == '\\');
    assert forall|i: int| start <= i < path.len() implies !separates(#[trigger] path[i]) by {
        assert(path[i] == name[i - start]);
    }
    lemma_last_part(path, 2, start as int);
    assert(path.subrange(start as int, path.len() as int) =~= name);
}

/// Nothing else is left out: a window with a title that the settings name in no
/// way, of a program that they do not name, is captured, unless it is a private
/// window of a browser.
pub proof fn law_other_windows_are_captured(
    title: Seq<char>,
    settings: ExclusionSettings,
    facts: WindowFacts,
)
    requires
        title.len() > 0,
        forall|i: int, at: int|
            0 <= i < settings.exclusion_keywords@.len() ==> !#[trigger] text::occurs_at(
                title,
                settings.exclusion_keywords@[i]@,
                at,
            ),
        forall|i: int|
            0 <= i < settings.exclusion_titles@.len() ==> !text::occurs_at(
                title,
                (#[trigger] settings.exclusion_titles@[i])@,
                0,
            ),
        forall|i: int, at: int|
            0 <= i < settings.user_excluded_titles.names@.len() ==> !#[trigger] text::occurs_at(
                text::lowercase_of(title),
                settings.user_excluded_titles.names@[i]@,
                at,
            ),
        !(facts.protected && settings.ignore_protected_windows),
        facts.process_path is Some ==> forall|i: int|
            0 <= i < settings.user_excluded_processes.names@.len() ==> (
            #[trigger] settings.user_excluded_processes.names@[i])@ != text::lowercase_of(
                file_name(facts.process_path->0@, after_drive(facts.process_path->0@)),
            ),
        facts.command_line is Some ==> {
            let line = facts.command_line->0@;
            &&& !text::holds_text(line, "--incognito"@)
            &&& !text::holds_text(line, "-inprivate"@)
            &&& !text::holds_text(line, "-private"@)
            &&& !text::holds_text(line, "--private-window"@)
        },
    ensures
        !excluded(title, settings, facts),
{
    let keywords = text::texts(settings.exclusion_keywords@);
    if text::holds_some(title, keywords) {
        let i = choose|i: int| 0 <= i < keywords.len() && text::holds_text(title, #[trigger] keywords[i]);
        let at = choose|at: int| text::occurs_at(title, keywords[i], at);
        assert(keywords[i] == settings.exclusion_keywords@[i]@);
        assert(text::occurs_at(title, settings.exclusion_keywords@[i]@, at));
    }
    let titles = text::texts(settings.exclusion_titles@);
    if begins_with_some(title, titles) {
        let i = choose|i: int| 0 <= i < titles.len() && text::begins(title, #[trigger] titles[i]);
        assert(titles[i] == settings.exclusion_titles@[i]@);
    }
    let lower = text::lowercase_of(title);
    if user_words_match(settings.user_excluded_titles, lower) {
        let names = settings.user_excluded_titles.names@;
        let i = choose|i: int|
            0 <= i < names.len() && (#[trigger] names[i])@.len() > 0 && text::holds_text(
                lower,
                names[i]@,
            );
        let at = choose|at: int| text::occurs_at(lower, names[i]@, at);
        assert(text::occurs_at(lower, settings.user_excluded_titles.names@[i]@, at));
    }
    if facts.command_line is Some && text::holds_some(facts.command_line->0@, private_flags()) {
        let line = facts.command_line->0@;
        let flags = private_flags();
        let i = choose|i: int| 0 <= i < flags.len() && text::holds_text(line, #[trigger] flags[i]);
        assert(flags[0] == "--incognito"@ && flags[1] == "-inprivate"@ && flags[2] == "-private"@
            && flags[3] == "--private-window"@);
    }
}

/// While the reader keeps up, a window that comes to the front is captured, and
/// one that stays there is captured again when the interval has passed since
/// the last capture, and not before, the first time excepted. What is excluded
/// is never captured.
pub proof fn law_windows_are_captured_in_time(
    turn: CaptureLoop,
    state: CaptureState,
    hwnd: i64,
    now: u64,
)
    requires
        state.in_flight_ocr_count == 0 || (state.capture_on_ocr_busy && state.in_flight_ocr_count
            <= state.ocr_queue_max_size),
    ensures
        turn.triggered(state, hwnd, true, now) == Trigger::Skip,
        hwnd != turn.last_hwnd_raw ==> turn.triggered(state, hwnd, false, now)
            == Trigger::FocusChange,
        hwnd == turn.last_hwnd_raw && now >= turn.last_capture_time + 1000
            * turn.config.interval_secs ==> turn.triggered(state, hwnd, false, now)
            == Trigger::Interval,
        hwnd == turn.last_hwnd_raw && !turn.force_first_capture && turn.config.interval_secs > 0
            && now < turn.last_capture_time + 1000 * turn.config.interval_secs ==> turn.triggered(state, hwnd, false, now)
            == Trigger::Skip,
        hwnd == turn.last_hwnd_raw && turn.force_first_capture ==> turn.triggered(
            state,
            hwnd,
            false,
            now,
        ) == Trigger::Interval,
{
}

/// A window covers a monitor exactly if it shows every point of it.
pub proof fn law_covering_is_of_every_point(window: ScreenRect, monitor: ScreenRect, x: int, y: int)
    requires
        monitor.left <= x < monitor.right,
        monitor.top <= y < monitor.bottom,
    ensures
        covers(window, monitor) ==> window.left <= x < window.right && window.top <= y
            < window.bottom,
        window.left <= monitor.left && window.top <= monitor.top && monitor.right <= window.right
            && monitor.bottom <= window.bottom ==> covers(window, monitor),
{
}

/// A session that was made for a window serves it as long as the window keeps
/// its size; it serves no other window, and none whose size is not known.
pub proof fn law_sessions_serve_their_window(
    state: CaptureState,
    session: WgcCaptureSession,
    hwnd: i64,
    width: i32,
    height: i32,
)
    requires
        state.wgc_state == Some(session),
    ensures
        state.serves(session.hwnd, Some((session.width, session.height))),
        hwnd != session.hwnd || width != session.width || height != session.height
            ==> !state.serves(hwnd, Some((width, height))),
        !state.serves(hwnd, None),
{
}

/// A window that does not change what it shows is captured as it was: where a
/// frame gave a capture, and the next turn has none, the capture comes again.
/// A frame that cannot be read ends the session, and so does one that shows
/// nothing.
pub proof fn law_the_last_capture_stands(
    first: CaptureState,
    second: CaptureState,
    third: CaptureState,
    frame: Frame,
    scaled: Option<(u32, u32)>,
    quality: u8,
    taken: Option<CapturedImage>,
    again: Option<CapturedImage>,
)
    requires
        first.wgc_state is Some,
        second.took(first, FrameEvent::Arrived { frame }, scaled, quality, taken),
        third.took(second, FrameEvent::TimedOut, scaled, quality, again),
    ensures
        taken is Some ==> second.wgc_state is Some && second.wgc_state->0.hwnd
            == first.wgc_state->0.hwnd,
        taken matches Some(image) ==> again matches Some(other) && other.jpeg_bytes@
            == image.jpeg_bytes@ && other.rgb@ == image.rgb@ && other.width == image.width
            && other.height == image.height,
        taken is None ==> second.wgc_state is None,
        frame.content.0 == 0 || frame.content.1 == 0 ==> taken is None,
        frame.content != frame.texture ==> taken is None,
        third.wgc_state == second.wgc_state,
{
}

/// A capture that is kept as large as it is has the pixels of the frame: their
/// bytes without alpha, from red to blue, row by row.
pub proof fn law_captures_show_the_frame(
    first: CaptureState,
    second: CaptureState,
    frame: Frame,
    quality: u8,
    taken: CapturedImage,
    x: int,
    y: int,
)
    requires
        second.took(first, FrameEvent::Arrived { frame }, None, quality, Some(taken)),
        0 <= x < frame.content.0,
        0 <= y < frame.content.1,
    ensures
        taken.width == frame.content.0,
        taken.height == frame.content.1,
        ({
            let at = 3 * (y * frame.content.0 + x);
            let from = y * frame.pitch + 4 * x;
            &&& taken.rgb@[at] == frame.raw@[from + 2]
            &&& taken.rgb@[at + 1] == frame.raw@[from + 1]
            &&& taken.rgb@[at + 2] == frame.raw@[from]
        }),
{
    images::law_pixels_keep_their_place(
        frame.raw@,
        frame.pitch as nat,
        frame.content.0 as nat,
        frame.content.1 as nat,
        x,
        y,
    );
}

/// The windows that mark themselves as private, and those that show nothing of
/// their own, are left out from the beginning, and so are protected ones.
pub proof fn law_private_windows_are_left_out_at_first(
    state: CaptureState,
    title: Seq<char>,
    facts: WindowFacts,
    word: Seq<char>,
    at: int,
)
    requires
        state.is_new(),
    ensures
        (word == "InPrivate"@ || word == "Incognito"@ || word == "隐身"@ || word == "私密"@ || word
            == "无痕"@) && text::occurs_at(title, word, at) ==> excluded(
            title,
            state.exclusion_settings,
            facts,
        ),
        (word == "Windows Default Lock Screen"@ || word == "Search"@ || word == "Program Manager"@
            || word == "Task Switching"@) && text::occurs_at(title, word, 0) ==> excluded(
            title,
            state.exclusion_settings,
            facts,
        ),
        facts.protected ==> excluded(title, state.exclusion_settings, facts),
        state.config.interval_secs == 10 && state.config.dhash_threshold == 10
            && state.config.dhash_history_size == 3 && state.config.max_side == 1600,
{
    let words = private_words();
    let names = empty_titles();
    assert(words[0] == "InPrivate"@ && words[1] == "Incognito"@ && words[2] == "隐身"@ && words[3]
        == "私密"@ && words[4] == "无痕"@);
    assert(names[0] == "Windows Default Lock Screen"@ && names[1] == "Search"@ && names[2]
        == "Program Manager"@ && names[3] == "Task Switching"@);
    if text::occurs_at(title, word, at) {
        assert(text::holds_text(title, word));
    }
}

/// A capture that is made smaller keeps to the longest side that is allowed, and
/// its sides keep their proportion to within two pixels.
pub proof fn law_captures_keep_their_proportions(
    size: (u32, u32),
    width: u32,
    height: u32,
    max_side: u32,
)
    requires
        box_shrinks(size, width, height, max_side),
        width >= height,
        width > 0,
    ensures
        size.0 <= max_side,
        size.1 <= max_side,
        size.0 + 2 >= max_side,
        size.1 * width <= height * max_side + width,
        height * max_side <= size.1 * width + 2 * width,
{
    assert(longer(width, height) == width);
    assert(width * max_side <= size.0 * width + 2 * width);
    assert(max_side <= size.0 + 2) by (nonlinear_arith)
        requires
            width * max_side <= size.0 * width + 2 * width,
            width > 0,
    ;
}

/// A window is new once: in the turn after one that left it alone it counts as
/// the one that stayed in front, and after a capture the first capture is no
/// longer due.
pub proof fn law_windows_are_new_once(
    first: CaptureLoop,
    second: CaptureLoop,
    third: CaptureLoop,
    state: &CaptureState,
    hwnd: i64,
    excluded: bool,
    now: u64,
    later: u64,
    did: Trigger,
    next: Trigger,
)
    requires
        CaptureLoop::turned(first, second, state, hwnd, excluded, now, did),
        CaptureLoop::turned(second, third, state, hwnd, excluded, later, next),
    ensures
        did == Trigger::Skip ==> second.last_hwnd_raw == hwnd && next != Trigger::FocusChange,
        did != Trigger::Skip ==> !second.force_first_capture && second.last_hwnd_raw
            == first.last_hwnd_raw,
        excluded ==> did == Trigger::Skip && next == Trigger::Skip,
        second.history_hashes == first.history_hashes && second.last_capture_time
            == first.last_capture_time,
{
}

} // verus!
