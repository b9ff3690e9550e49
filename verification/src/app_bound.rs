//! The protected installation: when it is used, offered and repaired.
use crate::text;
use vstd::prelude::*;
use vstd::string::*;

verus! {

/// Where it is kept that the installation was offered.
pub const OFFER_SEEN: &'static str = "app_bound_offer_seen";

/// How background processing stands.
#[derive(Debug)]
pub struct ProcessingStatus {
    pub installed: bool,
    pub available: bool,
    pub reason: Option<String>,
}

/// How the protected installation stands.
#[derive(Debug)]
pub struct AppBoundStatus {
    pub processing: ProcessingStatus,
    pub offer_enable: bool,
    pub package_available: bool,
}

/// What is known of the protected installation since the application started.
#[derive(Debug, Clone, Copy, PartialEq, Eq, Structural)]
pub struct RuntimeFlags {
    pub repair_needed: bool,
    pub repair_offer_dismissed: bool,
    pub protected_environment_ready: bool,
}

/// What is known from outside when the status is asked for.
#[derive(Debug, Clone, Copy, PartialEq, Eq, Structural)]
pub struct StatusFacts {
    /// Builds of this kind can have a protected installation.
    pub supported_build: bool,
    /// A package to install is there.
    pub package_readable: bool,
    pub background_processing_enabled: bool,
    /// The installation was offered before.
    pub offer_seen: Option<bool>,
}

/// The installation, or its repair, is offered: where there is a package, to
/// who has not seen the offer.
pub open spec fn offered(flags: RuntimeFlags, facts: StatusFacts, installed: bool) -> bool {
    facts.supported_build && facts.package_readable && ((flags.repair_needed
        && !flags.repair_offer_dismissed) || (facts.background_processing_enabled
        && !flags.repair_needed && !installed && facts.offer_seen != Some(true)))
}

impl RuntimeFlags {
    pub fn new() -> (result: Self)
        ensures
            result == (RuntimeFlags {
                repair_needed: false,
                repair_offer_dismissed: false,
                protected_environment_ready: false,
            }),
    {
        RuntimeFlags {
            repair_needed: false,
            repair_offer_dismissed: false,
            protected_environment_ready: false,
        }
    }

    /// This process is the protected application. A development build never is;
    /// `registered` tells whether the registered installation is where this
    /// process runs.
    pub fn is_protected_runtime(&self, development: bool, registered: bool) -> (result: bool)
        ensures
            result == (!development && (self.protected_environment_ready || registered)),
    {
        !development && (self.protected_environment_ready || registered)
    }

    /// There is a protected installation, though it may have to be repaired.
    pub fn uses_protected_installation(
        &self,
        development: bool,
        registered: bool,
        installed: bool,
    ) -> (result: bool)
        ensures
            result == (!development && (self.protected_environment_ready || registered
                || self.repair_needed || installed)),
    {
        if development {
            return false;
        }
        self.is_protected_runtime(development, registered) || self.repair_needed || installed
    }

    /// How the protected installation stands. Where it has to be repaired,
    /// processing counts as installed but not available.
    pub fn app_bound_status(&self, processing: ProcessingStatus, facts: &StatusFacts) -> (result:
        AppBoundStatus)
        ensures
            ({
                let installed = self.repair_needed || processing.installed;
                &&& result.processing.installed == installed
                &&& result.processing.available == (!self.repair_needed && processing.available)
                &&& if self.repair_needed {
                    result.processing.reason matches Some(r) && r@ == "repair_required"@
                } else {
                    result.processing.reason == processing.reason
                }
                &&& result.package_available == (facts.supported_build && facts.package_readable)
                &&& result.offer_enable == offered(*self, *facts, processing.installed)
            }),
    {
        let mut shown = processing;
        if self.repair_needed {
            shown.installed = true;
            shown.available = false;
            shown.reason = Some("repair_required".to_owned());
        }
        let package_available = facts.supported_build && facts.package_readable;
        let seen = match facts.offer_seen {
            Some(seen) => seen,
            None => false,
        };
        let offer_enable = package_available && ((self.repair_needed
            && !self.repair_offer_dismissed) || (facts.background_processing_enabled
            && !shown.installed && !seen));
        AppBoundStatus { processing: shown, offer_enable, package_available }
    }

    /// The offer was seen: it is not made again.
    pub fn app_bound_acknowledge_offer(&mut self)
        ensures
            *final(self) == (RuntimeFlags { repair_offer_dismissed: true, ..*old(self) }),
    {
        self.repair_offer_dismissed = true;
    }

    /// Starting was handed on, or could not be: then the application starts as
    /// it is, and offers to repair. Tells whether this process ends.
    pub fn delegate_startup(&mut self, outcome: Result<bool, String>) -> (result: bool)
        ensures
            result == (outcome matches Ok(handed_on) && handed_on),
            *final(self) == if outcome is Err {
                RuntimeFlags { repair_needed: true, ..*old(self) }
            } else {
                *old(self)
            },
    {
        match outcome {
            Ok(handed_on) => handed_on,
            Err(_) => {
                self.repair_needed = true;
                false
            },
        }
    }

    /// A development build has prepared its installation, or could not.
    pub fn development_prepared(&mut self, ok: bool)
        ensures
            *final(self) == if ok {
                RuntimeFlags { protected_environment_ready: true, ..*old(self) }
            } else {
                RuntimeFlags { repair_needed: true, ..*old(self) }
            },
    {
        if ok {
            self.protected_environment_ready = true;
        } else {
            self.repair_needed = true;
        }
    }

    /// A development build goes on after an installation without a restart.
    pub fn development_installed(&mut self)
        ensures
            *final(self) == (RuntimeFlags {
                protected_environment_ready: true,
                repair_needed: false,
                ..*old(self)
            }),
    {
        self.protected_environment_ready = true;
        self.repair_needed = false;
    }
}

/// An offer that was seen is not made again.
pub proof fn law_offers_are_made_once(flags: RuntimeFlags, facts: StatusFacts, installed: bool)
    requires
        flags.repair_offer_dismissed,
        facts.offer_seen == Some(true),
    ensures
        !offered(flags, facts, installed),
{
}

/// The text is one of the arguments.
pub open spec fn given(args: Seq<String>, wanted: Seq<char>) -> bool {
    exists|i: int| 0 <= i < args.len() && (#[trigger] args[i])@ == wanted
}

fn is_given(args: &[String], wanted: &str) -> (result: bool)
    ensures
        result == given(args@, wanted@),
{
    let mut i: usize = 0;
    while i < args.len()
        invariant
            i <= args@.len(),
            forall|j: int| 0 <= j < i ==> (#[trigger] args@[j])@ != wanted@,
        decreases args@.len() - i,
    {
        if text::same(&args[i], wanted) {
            return true;
        }
        i = i + 1;
    }
    false
}

/// What is done when the application starts.
#[derive(Debug, Clone, Copy, PartialEq, Eq, Structural)]
pub enum StartupPlan {
    /// It starts as it is.
    Ordinary,
    /// It starts as it is, and offers to repair.
    Repair,
    /// The protected installation is looked for.
    Look,
}

/// The process only does a short task of its own.
pub open spec fn short_task(args: Seq<String>) -> bool {
    given(args, "--cng-unlock"@) || given(args, "--silent-install-python"@)
}

/// What is done when the application starts.
pub fn plan_startup(args: &[String], debug_build: bool) -> (result: StartupPlan)
    ensures
        result == if debug_build || short_task(args@) {
            StartupPlan::Ordinary
        } else if given(args@, "--repair-protected-runtime"@) {
            StartupPlan::Repair
        } else {
            StartupPlan::Look
        },
{
    if debug_build || is_given(args, "--cng-unlock") || is_given(args, "--silent-install-python") {
        StartupPlan::Ordinary
    } else if is_given(args, "--repair-protected-runtime") {
        StartupPlan::Repair
    } else {
        StartupPlan::Look
    }
}

impl RuntimeFlags {
    /// The application starts. Where it was started to be repaired, it offers
    /// to repair.
    pub fn begin_startup(&mut self, args: &[String], debug_build: bool) -> (result: StartupPlan)
        ensures
            result == if debug_build || short_task(args@) {
                StartupPlan::Ordinary
            } else if given(args@, "--repair-protected-runtime"@) {
                StartupPlan::Repair
            } else {
                StartupPlan::Look
            },
            *final(self) == if result == StartupPlan::Repair {
                RuntimeFlags { repair_needed: true, ..*old(self) }
            } else {
                *old(self)
            },
    {
        let plan = plan_startup(args, debug_build);
        if plan == StartupPlan::Repair {
            self.repair_needed = true;
        }
        plan
    }

    /// The surroundings of the protected application were put in order, or could
    /// not be. Starting is not handed on.
    pub fn environment_prepared(&mut self, outcome: Result<(), String>) -> (result: Result<
        bool,
        String,
    >)
        ensures
            match outcome {
                Ok(_) => {
                    &&& result == Ok::<bool, String>(false)
                    &&& *final(self) == (RuntimeFlags {
                        protected_environment_ready: true,
                        ..*old(self)
                    })
                },
                Err(e) => result == Err::<bool, String>(e) && *final(self) == *old(self),
            },
    {
        match outcome {
            Ok(_) => {
                self.protected_environment_ready = true;
                Ok(false)
            },
            Err(e) => Err(e),
        }
    }
}

/// What is done once the protected installation was looked for.
#[derive(Debug, Clone, Copy, PartialEq, Eq, Structural)]
pub enum DelegatePlan {
    /// There is none: the application starts as it is.
    Ordinary,
    /// This process is it: its surroundings are put in order.
    Prepare,
    /// It is started in place of this process.
    HandOn,
}

/// What is done once the protected installation was looked for: whether it is
/// there, and whether it is where this process runs.
pub fn plan_delegation(active: Option<bool>) -> (result: DelegatePlan)
    ensures
        result == match active {
            None => DelegatePlan::Ordinary,
            Some(true) => DelegatePlan::Prepare,
            Some(false) => DelegatePlan::HandOn,
        },
{
    match active {
        None => DelegatePlan::Ordinary,
        Some(here) => if here {
            DelegatePlan::Prepare
        } else {
            DelegatePlan::HandOn
        },
    }
}

/// The arguments that the protected application gets: whether it is hidden, and
/// whether the system started it.
pub open spec fn handed_on(args: Seq<String>) -> Seq<Seq<char>>
    decreases args.len(),
{
    if args.len() <= 1 {
        Seq::empty()
    } else {
        let before = handed_on(args.drop_last());
        if args.last()@ == "--hidden"@ || args.last()@ == "--autostart"@ {
            before.push(args.last()@)
        } else {
            before
        }
    }
}

/// The arguments that the protected application gets.
pub fn handed_on_arguments(args: &[String]) -> (result: Vec<String>)
    ensures
        text::texts(result@) == handed_on(args@),
{
    let mut kept: Vec<String> = Vec::new();
    assert(text::texts(kept@) =~= Seq::<Seq<char>>::empty());
    if args.len() == 0 {
        return kept;
    }
    let mut i: usize = 1;
    assert(handed_on(args@.take(1)) == Seq::<Seq<char>>::empty());
    while i < args.len()
        invariant
            1 <= i <= args@.len(),
            text::texts(kept@) == handed_on(args@.take(i as int)),
        decreases args@.len() - i,
    {
        proof {
            assert(args@.take(i + 1).drop_last() =~= args@.take(i as int));
            assert(args@.take(i + 1).last() == args@[i as int]);
        }
        let ghost before = text::texts(kept@);
        if text::same(&args[i], "--hidden") || text::same(&args[i], "--autostart") {
            kept.push(args[i].clone());
            assert(text::texts(kept@) =~= before.push(args@[i as int]@));
        }
        i = i + 1;
    }
    assert(args@.take(args@.len() as int) =~= args@);
    kept
}

/// What came of starting the protected application: an error where it ended at
/// once without success. One that ended with success was handed on to another.
pub fn handed_on_outcome(ended: Option<bool>) -> (result: Result<bool, String>)
    ensures
        match result {
            Ok(done) => done && ended != Some(false),
            Err(e) => ended == Some(false) && e@ == "Protected application could not start"@,
        },
{
    match ended {
        Some(success) => if success {
            Ok(true)
        } else {
            Err("Protected application could not start".to_owned())
        },
        None => Ok(true),
    }
}

/// Background processing may be switched on only where it is allowed.
pub fn check_enable(enabled: bool, allowed: bool) -> (result: Result<(), String>)
    ensures
        match result {
            Ok(_) => !enabled || allowed,
            Err(e) => enabled && !allowed && e@ == "BACKGROUND_PROCESSING_DISABLED"@,
        },
{
    if enabled && !allowed {
        return Err("BACKGROUND_PROCESSING_DISABLED".to_owned());
    }
    Ok(())
}

/// The capacity in bytes that a setting in mebibytes stands for.
pub fn capacity_bytes(capacity_mib: u32) -> (result: u64)
    ensures
        result == capacity_mib * 1024 * 1024,
{
    capacity_mib as u64 * 1024 * 1024
}

/// Builds of this kind can have a protected installation.
pub fn supported_build(debug_build: bool, development: bool) -> (result: bool)
    ensures
        result == (!debug_build || development),
{
    !debug_build || development
}

/// What came of running the installer: whether it succeeded, or the error of
/// the system. The user may have cancelled it.
pub fn installer_outcome(outcome: Result<bool, Option<i32>>) -> (result: Result<(), String>)
    ensures
        match result {
            Ok(_) => outcome == Ok::<bool, Option<i32>>(true),
            Err(e) => if outcome == Err::<bool, Option<i32>>(Some(1223i32)) {
                e@ == "APP_BOUND_CANCELLED"@
            } else {
                outcome != Ok::<bool, Option<i32>>(true) && e@ == "APP_BOUND_INSTALL_FAILED"@
            },
        },
{
    match outcome {
        Ok(success) => if success {
            Ok(())
        } else {
            Err("APP_BOUND_INSTALL_FAILED".to_owned())
        },
        Err(code) => match code {
            Some(c) => if c == 1223 {
                Err("APP_BOUND_CANCELLED".to_owned())
            } else {
                Err("APP_BOUND_INSTALL_FAILED".to_owned())
            },
            None => Err("APP_BOUND_INSTALL_FAILED".to_owned()),
        },
    }
}

/// The arguments that the installer of a package gets: where it is, which
/// process asks, and whether processing is switched on with it.
pub open spec fn install_words(source: Seq<char>, process: u32, enable: bool) -> Seq<Seq<char>> {
    let always = seq![
        "--source"@,
        source,
        "--caller-pid"@,
        text::decimal(process as nat),
    ];
    if enable {
        always.push("--enable"@)
    } else {
        always
    }
}

/// The arguments that the installer of a package gets.
pub fn install_arguments(source: &str, process: u32, enable: bool) -> (result: Vec<String>)
    ensures
        text::texts(result@) == install_words(source@, process, enable),
{
    let mut words: Vec<String> = Vec::new();
    words.push("--source".to_owned());
    words.push(source.to_owned());
    words.push("--caller-pid".to_owned());
    words.push(text::decimal_string(process as u64));
    if enable {
        words.push("--enable".to_owned());
    }
    assert(text::texts(words@) =~= install_words(source@, process, enable));
    words
}

/// The arguments by which the installation is removed.
pub fn uninstall_arguments(process: u32) -> (result: Vec<String>)
    ensures
        text::texts(result@) == seq![
            "--uninstall"@,
            "--caller-pid"@,
            text::decimal(process as nat),
        ],
{
    let mut words: Vec<String> = Vec::new();
    words.push("--uninstall".to_owned());
    words.push("--caller-pid".to_owned());
    words.push(text::decimal_string(process as u64));
    assert(text::texts(words@) =~= seq![
        "--uninstall"@,
        "--caller-pid"@,
        text::decimal(process as nat),
    ]);
    words
}

/// The arguments by which the protected application is started once this
/// process has ended.
pub fn restart_arguments(process: u32) -> (result: Vec<String>)
    ensures
        text::texts(result@) == seq!["--launch-after"@, text::decimal(process as nat)],
{
    let mut words: Vec<String> = Vec::new();
    words.push("--launch-after".to_owned());
    words.push(text::decimal_string(process as u64));
    assert(text::texts(words@) =~= seq!["--launch-after"@, text::decimal(process as nat)]);
    words
}

/// Where a restart leads: nowhere in a development build, whose environment is
/// ready at once; else the protected application takes over.
pub fn schedule_restart(flags: &mut RuntimeFlags, development: bool, process: u32) -> (result: Option<
    Vec<String>,
>)
    ensures
        match result {
            None => development && *final(flags) == (RuntimeFlags {
                protected_environment_ready: true,
                repair_needed: false,
                ..*old(flags)
            }),
            Some(words) => {
                &&& !development
                &&& *final(flags) == *old(flags)
                &&& text::texts(words@) == seq!["--launch-after"@, text::decimal(process as nat)]
            },
        },
{
    if development {
        flags.development_installed();
        return None;
    }
    Some(restart_arguments(process))
}

/// A development build has to register itself with the service: unless it is
/// registered, is accepted, and the service answers.
pub fn must_register(registration_matches: bool, caller_matches: bool, answers: bool) -> (result: bool)
    ensures
        result == !(registration_matches && caller_matches && answers),
{
    !registration_matches || !caller_matches || !answers
}

/// An installation is offered only where it can be made, from a package that is
/// there: to repair one, unless that was declined, or for background processing
/// without one, once.
pub proof fn law_offers_can_be_made(flags: RuntimeFlags, facts: StatusFacts, installed: bool)
    ensures
        offered(flags, facts, installed) ==> facts.supported_build && facts.package_readable,
        flags.repair_needed ==> (offered(flags, facts, installed) <==> facts.supported_build
            && facts.package_readable && !flags.repair_offer_dismissed),
        !flags.repair_needed && installed ==> !offered(flags, facts, installed),
        !flags.repair_needed && !installed ==> (offered(flags, facts, installed)
            <==> facts.supported_build && facts.package_readable
            && facts.background_processing_enabled && facts.offer_seen != Some(true)),
{
}

/// Only how the application shows itself is handed on: of the arguments behind
/// the first those two flags, in their order, and nothing else.
pub proof fn law_only_two_flags_are_handed_on(args: Seq<String>, i: int)
    ensures
        handed_on(args).len() <= args.len(),
        0 < i < args.len() && (args[i]@ == "--hidden"@ || args[i]@ == "--autostart"@) ==> handed_on(
            args,
        ).contains(args[i]@),
        forall|k: int|
            0 <= k < handed_on(args).len() ==> #[trigger] handed_on(args)[k] == "--hidden"@
                || handed_on(args)[k] == "--autostart"@,
        args.len() <= 1 ==> handed_on(args).len() == 0,
    decreases args.len(),
{
    if args.len() > 1 {
        let head = args.drop_last();
        let before = handed_on(head);
        let all = handed_on(args);
        law_only_two_flags_are_handed_on(head, i);
        assert forall|k: int| 0 <= k < all.len() implies #[trigger] all[k] == "--hidden"@ || all[k]
            == "--autostart"@ by {
            if k < before.len() {
                assert(all[k] == before[k]);
            }
        }
        if 0 < i < args.len() && (args[i]@ == "--hidden"@ || args[i]@ == "--autostart"@) {
            if i < head.len() {
                assert(head[i] == args[i]);
                let k = choose|k: int| 0 <= k < before.len() && before[k] == args[i]@;
                assert(all[k] == args[i]@);
            } else {
                assert(all[all.len() - 1] == args[i]@);
            }
        }
    }
}

/// A process that was started for a short task of its own is one that was given
/// one of the two arguments for it.
pub proof fn law_short_tasks_are_told_by_their_argument(args: Seq<String>, i: int)
    ensures
        0 <= i < args.len() && (args[i]@ == "--cng-unlock"@ || args[i]@
            == "--silent-install-python"@) ==> short_task(args),
        (forall|j: int|
            0 <= j < args.len() ==> (#[trigger] args[j])@ != "--cng-unlock"@ && args[j]@
                != "--silent-install-python"@) ==> !short_task(args),
{
}

} // verus!
