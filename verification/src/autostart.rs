//! Starting with the system.
use crate::text;
use vstd::prelude::*;
use vstd::string::*;

verus! {

/// Where programs that start with the system are listed.
pub const RUN_KEY: &'static str = "Software\\Microsoft\\Windows\\CurrentVersion\\Run";

/// The name that the application is listed under.
pub const RUN_VALUE_NAME: &'static str = "CarbonPaper";

/// A text without quotation marks.
pub open spec fn unquoted(s: Seq<char>) -> Seq<char>
    decreases s.len(),
{
    if s.len() == 0 {
        Seq::empty()
    } else if s.last() == '"' {
        unquoted(s.drop_last())
    } else {
        unquoted(s.drop_last()).push(s.last())
    }
}

fn without_quotes(s: &str) -> (result: String)
    ensures
        result@ == unquoted(s@),
{
    let chars = text::chars_of(s);
    let mut kept: Vec<char> = Vec::new();
    let mut i: usize = 0;
    while i < chars.len()
        invariant
            i <= chars@.len(),
            kept@ == unquoted(chars@.take(i as int)),
        decreases chars@.len() - i,
    {
        assert(chars@.take(i + 1).drop_last() =~= chars@.take(i as int));
        if chars[i] != '"' {
            kept.push(chars[i]);
        }
        i = i + 1;
    }
    assert(chars@.take(chars@.len() as int) =~= chars@);
    text::string_of(kept.as_slice())
}

/// What is listed for the application: its path in quotation marks, and that it
/// was started by the system.
pub fn run_value(exe_path: &str) -> (result: String)
    ensures
        result@ == "\""@ + unquoted(exe_path@) + "\" --autostart"@,
{
    let path = without_quotes(exe_path);
    text::join3("\"", &path, "\" --autostart")
}

/// What is listed for the application: for all users, or else for this one. The
/// second list is read only where the first has nothing.
pub fn read_run_value(
    machine: Result<Option<String>, String>,
    user: Result<Option<String>, String>,
) -> (result: Result<Option<String>, String>)
    ensures
        result == match machine {
            Ok(Some(_)) => machine,
            Ok(None) => user,
            Err(_) => machine,
        },
{
    match machine {
        Ok(found) => match found {
            Some(value) => Ok(Some(value)),
            None => user,
        },
        Err(e) => Err(e),
    }
}

/// The application starts with the system.
pub fn get_autostart_status(listed: Result<Option<String>, String>) -> (result: Result<bool, String>)
    ensures
        match (listed, result) {
            (Ok(value), Ok(on)) => on == (value is Some),
            (Err(e), Err(told)) => e == told,
            _ => false,
        },
{
    match listed {
        Ok(value) => Ok(value.is_some()),
        Err(e) => Err(e),
    }
}

/// What has to be done so that the application starts with the system, or does
/// not.
#[derive(Debug)]
pub enum AutostartAction {
    /// This is listed.
    Write { value: String },
    /// What is listed goes; where nothing is, that is no error.
    Delete,
}

/// What has to be done so that the application starts with the system, or does
/// not.
pub fn set_autostart(enabled: bool, exe_path: &str) -> (result: AutostartAction)
    ensures
        match result {
            AutostartAction::Write { value } => enabled && value@ == "\""@ + unquoted(exe_path@)
                + "\" --autostart"@,
            AutostartAction::Delete => !enabled,
        },
{
    if enabled {
        AutostartAction::Write { value: run_value(exe_path) }
    } else {
        AutostartAction::Delete
    }
}

/// Only the quotes go from a path: what is left has none, keeps everything else
/// in its order, and a path without quotes stays as it is.
pub proof fn law_only_quotes_go(a: Seq<char>, b: Seq<char>, i: int)
    ensures
        unquoted(a + b) == unquoted(a) + unquoted(b),
        unquoted(a + seq!['"'] + b) == unquoted(a) + unquoted(b),
        0 <= i < unquoted(a).len() ==> unquoted(a)[i] != '"',
        (forall|j: int| 0 <= j < a.len() ==> #[trigger] a[j] != '"') ==> unquoted(a) == a,
{
    lemma_unquoted_joins(a, b);
    lemma_unquoted_joins(a, seq!['"']);
    lemma_unquoted_joins(a + seq!['"'], b);
    assert(seq!['"'].drop_last() =~= Seq::<char>::empty());
    assert(unquoted(Seq::<char>::empty()) =~= Seq::<char>::empty());
    assert(unquoted(seq!['"']) =~= Seq::<char>::empty());
    assert(unquoted(a) + Seq::<char>::empty() =~= unquoted(a));
    lemma_unquoted_has_none(a);
}

proof fn lemma_unquoted_joins(a: Seq<char>, b: Seq<char>)
    ensures
        unquoted(a + b) == unquoted(a) + unquoted(b),
    decreases b.len(),
{
    if b.len() == 0 {
        assert(a + b =~= a);
        assert(unquoted(a) + unquoted(b) =~= unquoted(a));
    } else {
        lemma_unquoted_joins(a, b.drop_last());
        assert((a + b).drop_last() =~= a + b.drop_last());
        assert((a + b).last() == b.last());
        assert(unquoted(a + b) =~= unquoted(a) + unquoted(b));
    }
}

proof fn lemma_unquoted_has_none(a: Seq<char>)
    ensures
        forall|i: int| 0 <= i < unquoted(a).len() ==> #[trigger] unquoted(a)[i] != '"',
        (forall|j: int| 0 <= j < a.len() ==> #[trigger] a[j] != '"') ==> unquoted(a) == a,
    decreases a.len(),
{
    if a.len() > 0 {
        let head = a.drop_last();
        lemma_unquoted_has_none(head);
        assert forall|i: int| 0 <= i < unquoted(a).len() implies #[trigger] unquoted(a)[i]
            != '"' by {
            if i < unquoted(head).len() {
                assert(unquoted(a)[i] == unquoted(head)[i]);
            }
        }
        if forall|j: int| 0 <= j < a.len() ==> #[trigger] a[j] != '"' {
            assert forall|j: int| 0 <= j < head.len() implies #[trigger] head[j] != '"' by {
                assert(head[j] == a[j]);
            }
            assert(a[a.len() - 1] != '"');
            assert(a =~= head.push(a.last()));
        }
    } else {
        assert(unquoted(a) =~= a);
    }
}

} // verus!
