//! Allowing a plugin what it asks for.
use vstd::prelude::*;

use super::args;
use crate::text;
use crate::text::TextMap;

verus! {

/// How far the origin of a package can be trusted.
#[derive(Clone, Copy, Debug, PartialEq, Eq, Structural)]
pub enum Provenance {
    VerifiedRelease,
    UnverifiedRelease,
    LocalDevelopment,
}

/// Which later packages a decision holds for.
#[derive(Clone, Copy, Debug, PartialEq, Eq, Structural)]
pub enum ReusePolicy {
    /// Verified releases of the same source.
    VerifiedSameSource,
    /// The very same package.
    ExactDigest,
}

/// How long a decision holds.
#[derive(Clone, Copy, Debug, PartialEq, Eq, Structural)]
pub enum Lifetime {
    Session,
    Persistent,
}

/// A decision about a capability.
#[derive(Clone, Copy, Debug, PartialEq, Eq, Structural)]
pub enum Decision {
    Reset,
    Deny,
    Allow(ReusePolicy),
}

/// What is known of the plugin and of the host.
#[derive(Clone, Copy, Debug, PartialEq, Eq, Structural)]
pub struct ConsentFacts {
    /// The plugin is an unrestricted process.
    pub native: bool,
    /// The plugin asks for the capability.
    pub requested: bool,
    /// The host knows the capability, and implements it.
    pub implemented: bool,
    pub provenance: Provenance,
}

// ---------------------------------------------------------------------------
// Arguments

/// The flags of the command.
pub open spec fn consent_flags() -> Seq<Seq<char>> {
    seq!["--session"@, "--persistent"@]
}

/// What is said where one of the three words of the command is missing.
pub open spec fn missing_word(i: int) -> Seq<char> {
    if i == 0 {
        "permission requires SOURCE CAPABILITY ACTION"@
    } else if i == 1 {
        "permission requires CAPABILITY"@
    } else {
        "permission requires allow, deny, or reset"@
    }
}

/// One of the three words of the command: the source, the capability and the
/// action.
pub fn consent_word<'a>(args: &'a [String], i: usize) -> (result: Result<&'a str, String>)
    ensures
        match (result, args::positioned(text::texts(args@), consent_flags(), i as nat)) {
            (Ok(word), Some(wanted)) => word@ == wanted,
            (Err(message), None) => message@ == missing_word(i as int),
            _ => false,
        },
{
    let flags: [&str; 2] = ["--session", "--persistent"];
    proof {
        assert(args::names(flags@) =~= consent_flags());
    }
    match args::positional_with_flags(args, i, flags.as_slice()) {
        Some(word) => Ok(word),
        None => {
            if i == 0 {
                Err(text::copied("permission requires SOURCE CAPABILITY ACTION"))
            } else if i == 1 {
                Err(text::copied("permission requires CAPABILITY"))
            } else {
                Err(text::copied("permission requires allow, deny, or reset"))
            }
        },
    }
}

/// How long the decision is to hold.
pub open spec fn lifetime_asked(words: Seq<Seq<char>>) -> Result<Lifetime, Seq<char>> {
    let session = words.contains("--session"@);
    if session == words.contains("--persistent"@) {
        Err("permission requires exactly one of --session or --persistent"@)
    } else if session {
        Ok(Lifetime::Session)
    } else {
        Ok(Lifetime::Persistent)
    }
}

pub fn lifetime(args: &[String]) -> (result: Result<Lifetime, String>)
    ensures
        lifetime_asked(text::texts(args@)) == (match result {
            Ok(lifetime) => Ok::<Lifetime, Seq<char>>(lifetime),
            Err(message) => Err(message@),
        }),
{
    let session: bool = args::has_flag(args, "--session");
    let persistent: bool = args::has_flag(args, "--persistent");
    if session == persistent {
        return Err(text::copied("permission requires exactly one of --session or --persistent"));
    }
    if session {
        Ok(Lifetime::Session)
    } else {
        Ok(Lifetime::Persistent)
    }
}

// ---------------------------------------------------------------------------
// Decisions

/// Whether anything can be decided at all.
pub open spec fn decidable(facts: ConsentFacts, source: Seq<char>, capability: Seq<char>) -> Result<
    (),
    Seq<char>,
> {
    if facts.native {
        Err(
            "native plugins are unrestricted processes; capability declarations are disclosure-only and cannot be granted through the sandbox policy"@,
        )
    } else if !facts.requested {
        Err(source + " does not request "@ + capability)
    } else {
        Ok(())
    }
}

pub fn check_decidable(facts: &ConsentFacts, source: &str, capability: &str) -> (result: Result<
    (),
    String,
>)
    ensures
        args::outcome(result) == decidable(*facts, source@, capability@),
{
    if facts.native {
        return Err(
            text::copied(
                "native plugins are unrestricted processes; capability declarations are disclosure-only and cannot be granted through the sandbox policy",
            ),
        );
    }
    if !facts.requested {
        return Err(text::joined3(source, " does not request ", capability));
    }
    Ok(())
}

/// The first option that is only for allowing, if there is one.
pub open spec fn allow_option(words: Seq<Seq<char>>) -> Option<Seq<char>> {
    if args::option_value(words, "--reuse"@) is Some {
        Some("--reuse"@)
    } else if args::option_value(words, "--bind"@) is Some {
        Some("--bind"@)
    } else if args::option_value(words, "--endpoint"@) is Some {
        Some("--endpoint"@)
    } else if args::option_value(words, "--secret"@) is Some {
        Some("--secret"@)
    } else if args::option_value(words, "--clipboard-socket"@) is Some {
        Some("--clipboard-socket"@)
    } else {
        None
    }
}

/// No option stands there that is only for allowing.
pub open spec fn nothing_allowed(words: Seq<Seq<char>>) -> Result<(), Seq<char>> {
    match allow_option(words) {
        Some(option) => Err(option + " is valid only with allow"@),
        None => Ok(()),
    }
}

pub fn reject_allow_options(args: &[String]) -> (result: Result<(), String>)
    ensures
        args::outcome(result) == nothing_allowed(text::texts(args@)),
{
    let option = if args::opt(args, "--reuse").is_some() {
        "--reuse"
    } else if args::opt(args, "--bind").is_some() {
        "--bind"
    } else if args::opt(args, "--endpoint").is_some() {
        "--endpoint"
    } else if args::opt(args, "--secret").is_some() {
        "--secret"
    } else if args::opt(args, "--clipboard-socket").is_some() {
        "--clipboard-socket"
    } else {
        return Ok(());
    };
    Err(text::joined(option, " is valid only with allow"))
}

/// Which later packages the decision holds for.
pub open spec fn reuse_asked(
    words: Seq<Seq<char>>,
    lifetime: Lifetime,
    provenance: Provenance,
) -> Result<
    ReusePolicy,
    Seq<char>,
> {
    match args::option_value(words, "--reuse"@) {
        None => if lifetime == Lifetime::Persistent && provenance == Provenance::VerifiedRelease {
            Ok(ReusePolicy::VerifiedSameSource)
        } else {
            Ok(ReusePolicy::ExactDigest)
        },
        Some(value) => if lifetime == Lifetime::Session {
            Err("--reuse is valid only with --persistent"@)
        } else if value == "source"@ {
            if provenance == Provenance::VerifiedRelease {
                Ok(ReusePolicy::VerifiedSameSource)
            } else {
                Err(
                    "source-wide reuse requires an immutable verified GitHub release; use --reuse digest"@,
                )
            }
        } else if value == "digest"@ {
            Ok(ReusePolicy::ExactDigest)
        } else {
            Err("--reuse must be source or digest, not `"@ + value + "`"@)
        },
    }
}

fn reuse(args: &[String], lifetime: Lifetime, provenance: Provenance) -> (result: Result<
    ReusePolicy,
    String,
>)
    ensures
        reuse_asked(text::texts(args@), lifetime, provenance) == (match result {
            Ok(reuse) => Ok::<ReusePolicy, Seq<char>>(reuse),
            Err(message) => Err(message@),
        }),
{
    match args::opt(args, "--reuse") {
        None => {
            if lifetime == Lifetime::Persistent && provenance == Provenance::VerifiedRelease {
                Ok(ReusePolicy::VerifiedSameSource)
            } else {
                Ok(ReusePolicy::ExactDigest)
            }
        },
        Some(value) => {
            if lifetime == Lifetime::Session {
                return Err(text::copied("--reuse is valid only with --persistent"));
            }
            if text::same(value, "source") {
                if provenance == Provenance::VerifiedRelease {
                    return Ok(ReusePolicy::VerifiedSameSource);
                }
                return Err(
                    text::copied(
                        "source-wide reuse requires an immutable verified GitHub release; use --reuse digest",
                    ),
                );
            }
            if text::same(value, "digest") {
                return Ok(ReusePolicy::ExactDigest);
            }
            Err(text::joined3("--reuse must be source or digest, not `", value, "`"))
        },
    }
}

/// What is decided.
pub open spec fn decided(
    words: Seq<Seq<char>>,
    action: Seq<char>,
    lifetime: Lifetime,
    facts: ConsentFacts,
    capability: Seq<char>,
) -> Result<Decision, Seq<char>> {
    if action == "reset"@ || action == "deny"@ {
        match nothing_allowed(words) {
            Err(message) => Err(message),
            Ok(_) => if action == "reset"@ {
                Ok(Decision::Reset)
            } else {
                Ok(Decision::Deny)
            },
        }
    } else if action == "allow"@ {
        if !facts.implemented {
            Err("this host does not implement "@ + capability)
        } else {
            match reuse_asked(words, lifetime, facts.provenance) {
                Err(message) => Err(message),
                Ok(reuse) => Ok(Decision::Allow(reuse)),
            }
        }
    } else {
        Err("permission action must be allow, deny, or reset, not `"@ + action + "`"@)
    }
}

pub fn decide(
    args: &[String],
    action: &str,
    lifetime: Lifetime,
    facts: &ConsentFacts,
    capability: &str,
) -> (result: Result<Decision, String>)
    ensures
        decided(text::texts(args@), action@, lifetime, *facts, capability@) == (match result {
            Ok(decision) => Ok::<Decision, Seq<char>>(decision),
            Err(message) => Err(message@),
        }),
{
    if text::same(action, "reset") {
        reject_allow_options(args)?;
        return Ok(Decision::Reset);
    }
    if text::same(action, "deny") {
        reject_allow_options(args)?;
        return Ok(Decision::Deny);
    }
    if text::same(action, "allow") {
        if !facts.implemented {
            return Err(text::joined("this host does not implement ", capability));
        }
        let reuse = reuse(args, lifetime, facts.provenance)?;
        return Ok(Decision::Allow(reuse));
    }
    Err(text::joined3("permission action must be allow, deny, or reset, not `", action, "`"))
}

/// Only a verified release is ever trusted beyond its own bytes, and only for
/// good.
pub proof fn trust_needs_verification(
    words: Seq<Seq<char>>,
    action: Seq<char>,
    lifetime: Lifetime,
    facts: ConsentFacts,
    capability: Seq<char>,
)
    requires
        decided(words, action, lifetime, facts, capability) == Ok::<Decision, Seq<char>>(
            Decision::Allow(ReusePolicy::VerifiedSameSource),
        ),
    ensures
        facts.provenance == Provenance::VerifiedRelease,
        facts.implemented,
        lifetime == Lifetime::Persistent,
{
    reveal_strlit("allow");
    reveal_strlit("deny");
    reveal_strlit("reset");
}

impl ReusePolicy {
    pub fn label(&self) -> (label: &'static str)
        ensures
            label@ == reuse_label(*self),
    {
        match self {
            ReusePolicy::VerifiedSameSource => "verified-same-source",
            ReusePolicy::ExactDigest => "exact-digest",
        }
    }
}

pub open spec fn reuse_label(reuse: ReusePolicy) -> Seq<char> {
    match reuse {
        ReusePolicy::VerifiedSameSource => "verified-same-source"@,
        ReusePolicy::ExactDigest => "exact-digest"@,
    }
}

/// What is printed of a decision. A decision that was reset may not have been
/// there.
pub open spec fn decision_text(
    decision: Decision,
    existed: bool,
    source: Seq<char>,
    capability: Seq<char>,
) -> Seq<char> {
    let what = source + " "@ + capability;
    match decision {
        Decision::Reset => if existed {
            "Reset "@ + what + " to needs-consent"@
        } else {
            "No stored decision for "@ + what
        },
        Decision::Deny => "Denied "@ + what,
        Decision::Allow(reuse) => "Allowed "@ + what + " ("@ + reuse_label(reuse) + ")"@,
    }
}

pub fn decision_line(decision: Decision, existed: bool, source: &str, capability: &str) -> (line:
    String)
    ensures
        line@ == decision_text(decision, existed, source@, capability@),
{
    let what = text::joined3(source, " ", capability);
    match decision {
        Decision::Reset => {
            if existed {
                text::joined3("Reset ", what.as_str(), " to needs-consent")
            } else {
                text::joined("No stored decision for ", what.as_str())
            }
        },
        Decision::Deny => text::joined("Denied ", what.as_str()),
        Decision::Allow(reuse) => {
            let head = text::joined3("Allowed ", what.as_str(), " (");
            text::joined3(head.as_str(), reuse.label(), ")")
        },
    }
}

/// Whether the user is warned that authority was given for good to code under
/// development.
pub fn warns(decision: Decision, lifetime: Lifetime, provenance: Provenance) -> (r: bool)
    ensures
        r == (decision is Allow && lifetime == Lifetime::Persistent && provenance
            == Provenance::LocalDevelopment),
{
    match decision {
        Decision::Allow(_) => lifetime == Lifetime::Persistent && provenance
            == Provenance::LocalDevelopment,
        _ => false,
    }
}

// ---------------------------------------------------------------------------
// Bindings

/// Where the first equals sign from `from` on stands, or else the end.
pub open spec fn equals_sign(value: Seq<char>, from: int) -> int
    decreases value.len() - from,
{
    if from >= value.len() {
        value.len() as int
    } else if value[from] == '=' {
        from
    } else {
        equals_sign(value, from + 1)
    }
}

/// The name and the target of a binding.
pub open spec fn pair_of(value: Seq<char>, usage: Seq<char>) -> Result<
    (Seq<char>, Seq<char>),
    Seq<char>,
> {
    let at = equals_sign(value, 0);
    if 0 < at && at + 1 < value.len() {
        Ok((value.subrange(0, at), value.subrange(at + 1, value.len() as int)))
    } else {
        Err("binding must be "@ + usage)
    }
}

pub fn binding_pair(value: &str, usage: &str) -> (result: Result<(String, String), String>)
    ensures
        pair_of(value@, usage@) == (match result {
            Ok((name, target)) => Ok::<(Seq<char>, Seq<char>), Seq<char>>((name@, target@)),
            Err(message) => Err(message@),
        }),
{
    let chars: Vec<char> = text::characters(value);
    let n: usize = chars.len();
    let mut at: usize = 0;
    while at < n && chars[at] != '='
        invariant
            at <= n == chars@.len(),
            chars@ == value@,
            equals_sign(value@, 0) == equals_sign(value@, at as int),
        decreases n - at,
    {
        at = at + 1;
    }
    if 0 < at && at < n && at + 1 < n {
        Ok((text::text_of(&chars, 0, at), text::text_of(&chars, at + 1, n)))
    } else {
        Err(text::joined("binding must be ", usage))
    }
}

/// What a binding leads to, as the system sees it, or what is wrong with it.
pub open spec fn target_view(target: Result<String, String>) -> Result<Seq<char>, Seq<char>> {
    match target {
        Ok(path) => Ok(path@),
        Err(message) => Err(message@),
    }
}

pub open spec fn targets_view(targets: Seq<Result<String, String>>) -> Seq<
    Result<Seq<char>, Seq<char>>,
> {
    Seq::new(targets.len(), |i: int| target_view(targets[i]))
}

/// The bindings among the first `to` values: each name once.
pub open spec fn bound(
    values: Seq<Seq<char>>,
    targets: Seq<Result<Seq<char>, Seq<char>>>,
    usage: Seq<char>,
    what: Seq<char>,
    to: int,
) -> Result<Map<Seq<char>, Seq<char>>, Seq<char>>
    decreases to,
{
    if to <= 0 {
        Ok(Map::empty())
    } else {
        match bound(values, targets, usage, what, to - 1) {
            Err(message) => Err(message),
            Ok(before) => match pair_of(values[to - 1], usage) {
                Err(message) => Err(message),
                Ok((name, _)) => match targets[to - 1] {
                    Err(message) => Err(message),
                    Ok(target) => if before.dom().contains(name) {
                        Err("duplicate "@ + what + " binding `"@ + name + "`"@)
                    } else {
                        Ok(before.insert(name, target))
                    },
                },
            },
        }
    }
}

proof fn lemma_bound_fails(
    values: Seq<Seq<char>>,
    targets: Seq<Result<Seq<char>, Seq<char>>>,
    usage: Seq<char>,
    what: Seq<char>,
    to: int,
    end: int,
)
    requires
        to <= end,
        bound(values, targets, usage, what, to) is Err,
    ensures
        bound(values, targets, usage, what, end) == bound(values, targets, usage, what, to),
    decreases end - to,
{
    if to < end {
        lemma_bound_fails(values, targets, usage, what, to, end - 1);
    }
}

/// A map holds exactly these bindings.
pub open spec fn holds(map: TextMap<String, String>, bindings: Map<Seq<char>, Seq<char>>) -> bool {
    &&& map.wf()
    &&& forall|name: Seq<char>|
        #![trigger map.lookup(name)]
        match map.lookup(name) {
            Some(target) => bindings.dom().contains(name) && bindings[name] == target@,
            None => !bindings.dom().contains(name),
        }
}

fn bind(
    values: &Vec<&str>,
    targets: &Vec<Result<String, String>>,
    usage: &str,
    what: &str,
) -> (result:
    Result<TextMap<String, String>, String>)
    requires
        targets@.len() == values@.len(),
    ensures
        match (
            result,
            bound(
                args::names(values@),
                targets_view(targets@),
                usage@,
                what@,
                values@.len() as int,
            ),
        ) {
            (Ok(map), Ok(bindings)) => holds(map, bindings),
            (Err(message), Err(why)) => message@ == why,
            _ => false,
        },
{
    let ghost words = args::names(values@);
    let ghost ends = targets_view(targets@);
    let ghost n = values@.len() as int;
    let mut map: TextMap<String, String> = TextMap::new();
    let mut i: usize = 0;
    let ghost mut bindings: Map<Seq<char>, Seq<char>> = Map::empty();
    while i < values.len()
        invariant
            i <= values@.len() == n,
            targets@.len() == n,
            words == args::names(values@),
            ends == targets_view(targets@),
            holds(map, bindings),
            bound(words, ends, usage@, what@, i as int) == Ok::<
                Map<Seq<char>, Seq<char>>,
                Seq<char>,
            >(bindings),
        decreases n - i,
    {
        proof {
            if bound(words, ends, usage@, what@, i + 1) is Err {
                lemma_bound_fails(words, ends, usage@, what@, i + 1, n);
            }
            assert(words[i as int] == values@[i as int]@);
            assert(ends[i as int] == target_view(targets@[i as int]));
        }
        let (name, _) = match binding_pair(values[i], usage) {
            Ok(pair) => pair,
            Err(message) => {
                return Err(message);
            },
        };
        let target = match &targets[i] {
            Ok(target) => target.clone(),
            Err(message) => {
                return Err(message.clone());
            },
        };
        if map.contains(name.as_str()) {
            let head = text::joined4("duplicate ", what, " binding `", name.as_str());
            proof {
                assert(map.lookup(name@) is Some);
            }
            return Err(text::joined(head.as_str(), "`"));
        }
        let ghost before = map;
        let ghost text = name@;
        let ghost path = target;
        proof {
            assert(map.lookup(text) is None);
        }
        map.insert(name, target);
        proof {
            text::lemma_insert_lookup(before, map, text, path);
            let after = bindings.insert(text, path@);
            assert forall|other: Seq<char>|
                #![trigger map.lookup(other)]
                match map.lookup(other) {
                    Some(target) => after.dom().contains(other) && after[other] == target@,
                    None => !after.dom().contains(other),
                } by {
                if other != text {
                    assert(map.lookup(other) == before.lookup(other));
                }
            }
            bindings = after;
        }
        i = i + 1;
    }
    Ok(map)
}

/// What a plugin is given of the system.
#[derive(Debug)]
pub struct GrantBindings {
    pub filesystem_mounts: TextMap<String, String>,
    pub local_endpoints: TextMap<String, String>,
    pub secrets: TextMap<String, String>,
    pub clipboard: Option<String>,
}

/// What the system says of the targets of bindings, in the order in which they
/// stand in the arguments.
#[derive(Debug)]
pub struct Targets {
    pub mounts: Vec<Result<String, String>>,
    pub endpoints: Vec<Result<String, String>>,
    pub clipboards: Vec<Result<String, String>>,
}

/// What stands behind each use of an option.
pub open spec fn given(words: Seq<Seq<char>>, name: Seq<char>) -> Seq<Seq<char>> {
    args::option_values(words, name, words.len() as int)
}

/// The targets of secrets are names, which only the secret service can judge.
pub open spec fn secret_targets(values: Seq<Seq<char>>) -> Seq<Result<Seq<char>, Seq<char>>> {
    Seq::new(
        values.len(),
        |i: int|
            match pair_of(values[i], "--secret NAME=OBJECT_PATH"@) {
                Ok((_, target)) => Ok(target),
                Err(message) => Err(message),
            },
    )
}

/// The socket of the clipboard, where one is given.
pub open spec fn clipboard_bound(
    values: Seq<Seq<char>>,
    targets: Seq<Result<Seq<char>, Seq<char>>>,
) -> Result<
    Option<Seq<char>>,
    Seq<char>,
> {
    if values.len() > 1 {
        Err("--clipboard-socket may be supplied only once"@)
    } else if values.len() == 0 {
        Ok(None)
    } else {
        match targets[0] {
            Ok(path) => Ok(Some(path)),
            Err(message) => Err(message),
        }
    }
}

/// One thing the system says for each binding.
pub open spec fn complete(words: Seq<Seq<char>>, targets: Targets) -> bool {
    &&& targets.mounts@.len() == given(words, "--bind"@).len()
    &&& targets.endpoints@.len() == given(words, "--endpoint"@).len()
    &&& targets.clipboards@.len() == given(words, "--clipboard-socket"@).len()
}

/// The bindings of each kind.
pub open spec fn mounts_bound(words: Seq<Seq<char>>, targets: Targets) -> Result<
    Map<Seq<char>, Seq<char>>,
    Seq<char>,
> {
    let values = given(words, "--bind"@);
    bound(
        values,
        targets_view(targets.mounts@),
        "--bind LABEL=DIR"@,
        "filesystem"@,
        values.len() as int,
    )
}

pub open spec fn endpoints_bound(words: Seq<Seq<char>>, targets: Targets) -> Result<
    Map<Seq<char>, Seq<char>>,
    Seq<char>,
> {
    let values = given(words, "--endpoint"@);
    bound(
        values,
        targets_view(targets.endpoints@),
        "--endpoint LABEL=SOCKET"@,
        "local endpoint"@,
        values.len() as int,
    )
}

pub open spec fn secrets_bound(
    words: Seq<Seq<char>>,
) -> Result<Map<Seq<char>, Seq<char>>, Seq<char>> {
    let values = given(words, "--secret"@);
    bound(
        values,
        secret_targets(values),
        "--secret NAME=OBJECT_PATH"@,
        "secret"@,
        values.len() as int,
    )
}

/// The bindings that the arguments ask for.
pub open spec fn grants(
    result: Result<GrantBindings, String>,
    words: Seq<Seq<char>>,
    targets: Targets,
) -> bool {
    match mounts_bound(words, targets) {
        Err(message) => result is Err && result->Err_0@ == message,
        Ok(mounts) => match endpoints_bound(words, targets) {
            Err(message) => result is Err && result->Err_0@ == message,
            Ok(endpoints) => match secrets_bound(words) {
                Err(message) => result is Err && result->Err_0@ == message,
                Ok(secrets) => match clipboard_bound(
                    given(words, "--clipboard-socket"@),
                    targets_view(targets.clipboards@),
                ) {
                    Err(message) => result is Err && result->Err_0@ == message,
                    Ok(clipboard) => {
                        &&& result is Ok
                        &&& holds(result->Ok_0.filesystem_mounts, mounts)
                        &&& holds(result->Ok_0.local_endpoints, endpoints)
                        &&& holds(result->Ok_0.secrets, secrets)
                        &&& clipboard == (match result->Ok_0.clipboard {
                            Some(path) => Some(path@),
                            None => None,
                        })
                    },
                },
            },
        },
    }
}

fn secret_ends(values: &Vec<&str>) -> (targets: Vec<Result<String, String>>)
    ensures
        targets_view(targets@) == secret_targets(args::names(values@)),
{
    let ghost words = args::names(values@);
    let mut targets: Vec<Result<String, String>> = Vec::new();
    let mut i: usize = 0;
    while i < values.len()
        invariant
            i <= values@.len(),
            words == args::names(values@),
            targets@.len() == i,
            forall|k: int|
                0 <= k < i ==> target_view(#[trigger] targets@[k]) == secret_targets(words)[k],
        decreases values@.len() - i,
    {
        let target = match binding_pair(values[i], "--secret NAME=OBJECT_PATH") {
            Ok((_, target)) => Ok(target),
            Err(message) => Err(message),
        };
        proof {
            assert(words[i as int] == values@[i as int]@);
        }
        targets.push(target);
        i = i + 1;
    }
    proof {
        assert(targets_view(targets@) =~= secret_targets(words));
    }
    targets
}

/// The bindings that the arguments ask for: the first of them that is wrong is
/// refused, whether in itself, by the system, or because its name was given
/// before.
pub fn grant_bindings(args: &[String], targets: &Targets) -> (result: Result<GrantBindings, String>)
    requires
        complete(text::texts(args@), *targets),
    ensures
        grants(result, text::texts(args@), *targets),
{
    let ghost words = text::texts(args@);
    let binds = args::options(args, "--bind");
    proof {
        assert(args::names(binds@).len() == binds@.len());
    }
    let filesystem_mounts = bind(&binds, &targets.mounts, "--bind LABEL=DIR", "filesystem")?;
    let endpoints = args::options(args, "--endpoint");
    proof {
        assert(args::names(endpoints@).len() == endpoints@.len());
    }
    let local_endpoints = bind(
        &endpoints,
        &targets.endpoints,
        "--endpoint LABEL=SOCKET",
        "local endpoint",
    )?;
    let names = args::options(args, "--secret");
    let ends = secret_ends(&names);
    proof {
        assert(args::names(names@).len() == names@.len());
        assert(targets_view(ends@).len() == ends@.len());
    }
    let secrets = bind(&names, &ends, "--secret NAME=OBJECT_PATH", "secret")?;
    let clipboards = args::options(args, "--clipboard-socket");
    proof {
        assert(args::names(clipboards@).len() == clipboards@.len());
    }
    if clipboards.len() > 1 {
        return Err(text::copied("--clipboard-socket may be supplied only once"));
    }
    let clipboard = if clipboards.len() == 0 {
        None
    } else {
        match &targets.clipboards[0] {
            Ok(path) => Some(path.clone()),
            Err(message) => {
                return Err(message.clone());
            },
        }
    };
    Ok(GrantBindings { filesystem_mounts, local_endpoints, secrets, clipboard })
}

/// What the system says of the target of a binding to a socket.
#[derive(Clone, Copy, Debug, PartialEq, Eq, Structural)]
pub struct SocketFacts {
    /// The directory is where it seems to be.
    pub plain_parent: bool,
    /// It is a socket, and no link to one.
    pub socket: bool,
    pub owner: u32,
}

/// Whether a binding may lead to a socket.
pub fn validated_user_socket(
    path: &str,
    facts: &SocketFacts,
    own: u32,
) -> (result: Result<(), String>)
    ensures
        args::outcome(result) == (if !super::plan::is_normalized(path@) {
            Err("socket binding must be a normalized absolute path"@)
        } else if !facts.plain_parent {
            Err("socket binding parent must not contain symlinks"@)
        } else if !facts.socket {
            Err("socket binding must name an existing Unix socket, not a symlink"@)
        } else if facts.owner != own {
            Err("socket binding must be owned by the current user"@)
        } else {
            Ok(())
        }),
{
    if !super::plan::path_is_normalized(path) {
        return Err(text::copied("socket binding must be a normalized absolute path"));
    }
    if !facts.plain_parent {
        return Err(text::copied("socket binding parent must not contain symlinks"));
    }
    if !facts.socket {
        return Err(
            text::copied("socket binding must name an existing Unix socket, not a symlink"),
        );
    }
    if facts.owner != own {
        return Err(text::copied("socket binding must be owned by the current user"));
    }
    Ok(())
}

/// Consent is given for all verified releases of a source only where it is meant to last,
/// the package is a verified release, and nothing narrower is asked for; and for the very
/// package in all other cases in which it is given. Nothing is allowed that the host does
/// not implement, and what narrows a consent cannot stand with another decision.
pub proof fn consent_is_as_wide_as_it_is_asked_for(
    words: Seq<Seq<char>>,
    action: Seq<char>,
    lifetime: Lifetime,
    facts: ConsentFacts,
    capability: Seq<char>,
)
    ensures
        ({
            let result = decided(words, action, lifetime, facts, capability);
            let reuse = args::option_value(words, "--reuse"@);
            let plain = reuse is None && args::option_value(words, "--bind"@) is None
                && args::option_value(words, "--endpoint"@) is None && args::option_value(
                words,
                "--secret"@,
            ) is None && args::option_value(words, "--clipboard-socket"@) is None;
            &&& result == Ok::<Decision, Seq<char>>(Decision::Allow(ReusePolicy::VerifiedSameSource))
                <==> action == "allow"@ && facts.implemented && lifetime is Persistent
                && facts.provenance is VerifiedRelease && (reuse is None || reuse == Some(
                "source"@,
            ))
            &&& result == Ok::<Decision, Seq<char>>(Decision::Allow(ReusePolicy::ExactDigest))
                <==> action == "allow"@ && facts.implemented && {
                ||| reuse is None && (lifetime is Session || !(facts.provenance is VerifiedRelease))
                ||| reuse == Some("digest"@) && lifetime is Persistent
            }
            &&& result == Ok::<Decision, Seq<char>>(Decision::Deny) <==> action == "deny"@ && plain
            &&& result == Ok::<Decision, Seq<char>>(Decision::Reset) <==> action == "reset"@
                && plain
        }),
{
    reveal_strlit("reset");
    reveal_strlit("deny");
    reveal_strlit("allow");
    reveal_strlit("source");
    reveal_strlit("digest");
    assert("deny"@.len() != "reset"@.len());
    assert("allow"@[0] != "reset"@[0]);
    assert("deny"@.len() != "allow"@.len());
    assert("source"@[0] != "digest"@[0]);
}

/// A binding is read as a name and a target exactly where it is these two with an equals
/// sign between them, neither of them empty, and no equals sign in the name.
pub proof fn bindings_are_split_at_the_first_equals_sign(
    value: Seq<char>,
    usage: Seq<char>,
    name: Seq<char>,
    target: Seq<char>,
)
    ensures
        pair_of(value, usage) == Ok::<(Seq<char>, Seq<char>), Seq<char>>((name, target)) <==> {
            &&& name.len() > 0
            &&& target.len() > 0
            &&& !name.contains('=')
            &&& value == name.push('=') + target
        },
{
    lemma_equals_sign(value, 0);
    let at = equals_sign(value, 0);
    if pair_of(value, usage) == Ok::<(Seq<char>, Seq<char>), Seq<char>>((name, target)) {
        assert(value =~= name.push('=') + target);
        if name.contains('=') {
            let i = choose|i: int| 0 <= i < name.len() && name[i] == '=';
            assert(value[i] == '=');
        }
    }
    if name.len() > 0 && target.len() > 0 && !name.contains('=') && value == name.push('=')
        + target {
        assert(value[name.len() as int] == '=');
        assert forall|i: int| 0 <= i < name.len() implies value[i] != '=' by {
            assert(name[i] == value[i]);
            if name[i] == '=' {
                assert(name.contains('='));
            }
        }
        assert(at == name.len());
        assert(value.subrange(0, at) =~= name);
        assert(value.subrange(at + 1, value.len() as int) =~= target);
    }
}

proof fn lemma_equals_sign(value: Seq<char>, from: int)
    requires
        0 <= from <= value.len(),
    ensures
        from <= equals_sign(value, from) <= value.len(),
        equals_sign(value, from) < value.len() ==> value[equals_sign(value, from)] == '=',
        forall|i: int| from <= i < equals_sign(value, from) ==> #[trigger] value[i] != '=',
    decreases value.len() - from,
{
    if from < value.len() && value[from] != '=' {
        lemma_equals_sign(value, from + 1);
    }
}

/// The bindings of an option are accepted exactly where each is a name and a target, the
/// system knows each target, and no name occurs twice; and then each name leads to what the
/// system knows.
pub proof fn each_name_is_bound_once(
    values: Seq<Seq<char>>,
    targets: Seq<Result<Seq<char>, Seq<char>>>,
    usage: Seq<char>,
    what: Seq<char>,
    n: int,
)
    requires
        0 <= n <= values.len(),
        values.len() == targets.len(),
    ensures
        bound(values, targets, usage, what, n) is Ok <==> {
            &&& forall|i: int|
                #![trigger values[i]]
                0 <= i < n ==> pair_of(values[i], usage) is Ok && targets[i] is Ok
            &&& forall|i: int, j: int|
                #![trigger values[i], values[j]]
                0 <= i < j < n ==> pair_of(values[i], usage)->Ok_0.0 != pair_of(
                    values[j],
                    usage,
                )->Ok_0.0
        },
        bound(values, targets, usage, what, n) matches Ok(bindings) ==> {
            &&& forall|i: int|
                #![trigger values[i]]
                0 <= i < n ==> {
                    let name = pair_of(values[i], usage)->Ok_0.0;
                    bindings.dom().contains(name) && bindings[name] == targets[i]->Ok_0
                }
            &&& forall|name: Seq<char>| #[trigger]
                bindings.dom().contains(name) ==> exists|i: int|
                    0 <= i < n && pair_of(#[trigger] values[i], usage)->Ok_0.0 == name
        },
    decreases n,
{
    if n > 0 {
        each_name_is_bound_once(values, targets, usage, what, n - 1);
        let all = bound(values, targets, usage, what, n);
        match bound(values, targets, usage, what, n - 1) {
            Ok(before) => {
                if all is Ok {
                    let name = pair_of(values[n - 1], usage)->Ok_0.0;
                    let bindings = all->Ok_0;
                    assert forall|i: int, j: int|
                        #![trigger values[i], values[j]]
                        0 <= i < j < n implies pair_of(values[i], usage)->Ok_0.0 != pair_of(
                        values[j],
                        usage,
                    )->Ok_0.0 by {
                        if j == n - 1 {
                            assert(before.dom().contains(pair_of(values[i], usage)->Ok_0.0));
                        }
                    }
                    assert forall|other: Seq<char>| #[trigger]
                        bindings.dom().contains(other) implies exists|i: int|
                        0 <= i < n && pair_of(#[trigger] values[i], usage)->Ok_0.0 == other by {
                        if other == name {
                            assert(pair_of(values[n - 1], usage)->Ok_0.0 == other);
                        } else {
                            assert(before.dom().contains(other));
                        }
                    }
                } else if pair_of(values[n - 1], usage) is Ok && targets[n - 1] is Ok {
                    let name = pair_of(values[n - 1], usage)->Ok_0.0;
                    assert(before.dom().contains(name));
                    let i = choose|i: int|
                        0 <= i < n - 1 && pair_of(#[trigger] values[i], usage)->Ok_0.0 == name;
                    assert(pair_of(values[i], usage)->Ok_0.0 == pair_of(
                        values[n - 1],
                        usage,
                    )->Ok_0.0);
                }
            },
            Err(_) => {},
        }
    }
}

} // verus!
