//! The allowlist that every command request must pass before anything is
//! executed.

use crate::text::{str_eq, views};
use vstd::prelude::*;

verus! {

/// The actions of the package manager that may be requested.
#[derive(Debug, Clone, Copy, PartialEq, Eq, Structural)]
pub enum Verb {
    List,
    Search,
    Install,
    Uninstall,
    Upgrade,
    Pin,
    Source,
    Export,
    Import,
    Show,
}

impl Verb {
    /// The token that selects this verb.
    pub open spec fn name(self) -> Seq<char> {
        match self {
            Verb::List => "list"@,
            Verb::Search => "search"@,
            Verb::Install => "install"@,
            Verb::Uninstall => "uninstall"@,
            Verb::Upgrade => "upgrade"@,
            Verb::Pin => "pin"@,
            Verb::Source => "source"@,
            Verb::Export => "export"@,
            Verb::Import => "import"@,
            Verb::Show => "show"@,
        }
    }

    /// The flags a request with this verb must carry.
    pub open spec fn required_flags(self) -> Seq<Seq<char>> {
        match self {
            Verb::Install => seq![
                "--id"@,
                "--accept-source-agreements"@,
                "--accept-package-agreements"@,
            ],
            Verb::Uninstall => seq!["--id"@],
            Verb::Show => seq!["--id"@],
            Verb::Export => seq!["-o"@],
            Verb::Import => seq!["-i"@],
            Verb::List => seq![],
            Verb::Search => seq![],
            Verb::Upgrade => seq![],
            Verb::Pin => seq![],
            Verb::Source => seq![],
        }
    }

    /// The verb that `token` selects, compared case-sensitively.
    pub open spec fn of(token: Seq<char>) -> Option<Verb> {
        if token == Verb::List.name() {
            Some(Verb::List)
        } else if token == Verb::Search.name() {
            Some(Verb::Search)
        } else if token == Verb::Install.name() {
            Some(Verb::Install)
        } else if token == Verb::Uninstall.name() {
            Some(Verb::Uninstall)
        } else if token == Verb::Upgrade.name() {
            Some(Verb::Upgrade)
        } else if token == Verb::Pin.name() {
            Some(Verb::Pin)
        } else if token == Verb::Source.name() {
            Some(Verb::Source)
        } else if token == Verb::Export.name() {
            Some(Verb::Export)
        } else if token == Verb::Import.name() {
            Some(Verb::Import)
        } else if token == Verb::Show.name() {
            Some(Verb::Show)
        } else {
            None
        }
    }

    /// The verb that `token` selects, if it is one of the table.
    pub fn parse(token: &str) -> (verb: Option<Verb>)
        ensures
            verb == Verb::of(token@),
    {
        if str_eq(token, "list") {
            Some(Verb::List)
        } else if str_eq(token, "search") {
            Some(Verb::Search)
        } else if str_eq(token, "install") {
            Some(Verb::Install)
        } else if str_eq(token, "uninstall") {
            Some(Verb::Uninstall)
        } else if str_eq(token, "upgrade") {
            Some(Verb::Upgrade)
        } else if str_eq(token, "pin") {
            Some(Verb::Pin)
        } else if str_eq(token, "source") {
            Some(Verb::Source)
        } else if str_eq(token, "export") {
            Some(Verb::Export)
        } else if str_eq(token, "import") {
            Some(Verb::Import)
        } else if str_eq(token, "show") {
            Some(Verb::Show)
        } else {
            None
        }
    }
}

/// Whether every flag of `flags` occurs among `tokens`.
pub open spec fn has_all(tokens: Seq<Seq<char>>, flags: Seq<Seq<char>>) -> bool {
    forall|k: int| 0 <= k < flags.len() ==> tokens.contains(#[trigger] flags[k])
}

/// The allowlist: a request is allowed when its first token is a verb of the
/// table and every flag that the verb requires occurs among its tokens.
pub open spec fn command_allowed(tokens: Seq<Seq<char>>) -> bool {
    tokens.len() > 0 && match Verb::of(tokens[0]) {
        Some(verb) => has_all(tokens, verb.required_flags()),
        None => false,
    }
}

/// The names of the table are pairwise different, so each selects its own
/// verb.
pub proof fn lemma_name_selects_verb(verb: Verb)
    ensures
        Verb::of(verb.name()) == Some(verb),
{
    reveal_strlit("list");
    reveal_strlit("search");
    reveal_strlit("install");
    reveal_strlit("uninstall");
    reveal_strlit("upgrade");
    reveal_strlit("pin");
    reveal_strlit("source");
    reveal_strlit("export");
    reveal_strlit("import");
    reveal_strlit("show");
    assert("list"@.len() == 4 && "show"@.len() == 4 && "pin"@.len() == 3);
    assert("install"@.len() == 7 && "upgrade"@.len() == 7 && "uninstall"@.len() == 9);
    assert("search"@.len() == 6 && "source"@.len() == 6);
    assert("export"@.len() == 6 && "import"@.len() == 6);
    assert("list"@[0] == 'l' && "show"@[0] == 's');
    assert("install"@[0] == 'i' && "upgrade"@[0] == 'u');
    assert("search"@[1] == 'e' && "source"@[1] == 'o');
    assert("search"@[0] == 's' && "source"@[0] == 's');
    assert("export"@[0] == 'e' && "import"@[0] == 'i');
}

/// A request whose first token is no verb of the table is rejected, whatever
/// else it carries.
pub proof fn lemma_unlisted_verb_rejected(tokens: Seq<Seq<char>>)
    requires
        tokens.len() > 0,
        forall|verb: Verb| tokens[0] != #[trigger] verb.name(),
    ensures
        !command_allowed(tokens),
{
    assert(tokens[0] != Verb::List.name());
    assert(tokens[0] != Verb::Search.name());
    assert(tokens[0] != Verb::Install.name());
    assert(tokens[0] != Verb::Uninstall.name());
    assert(tokens[0] != Verb::Upgrade.name());
    assert(tokens[0] != Verb::Pin.name());
    assert(tokens[0] != Verb::Source.name());
    assert(tokens[0] != Verb::Export.name());
    assert(tokens[0] != Verb::Import.name());
    assert(tokens[0] != Verb::Show.name());
}

/// A request whose first token is a verb of the table is allowed exactly
/// when it carries every flag that the verb requires: with all of them it
/// passes, and with any one of them missing it is rejected.
pub proof fn lemma_listed_verb_rule(tokens: Seq<Seq<char>>, verb: Verb)
    requires
        tokens.len() > 0,
        tokens[0] == verb.name(),
    ensures
        command_allowed(tokens) == has_all(tokens, verb.required_flags()),
        has_all(tokens, verb.required_flags()) ==> command_allowed(tokens),
        forall|k: int|
            0 <= k < verb.required_flags().len() && !tokens.contains(
                #[trigger] verb.required_flags()[k],
            ) ==> !command_allowed(tokens),
{
    lemma_name_selects_verb(verb);
}

/// A request without tokens is rejected.
pub proof fn lemma_empty_request_rejected()
    ensures
        !command_allowed(Seq::empty()),
{
}

/// Whether `flag` occurs among `args`.
pub fn has_flag(args: &[&str], flag: &str) -> (found: bool)
    ensures
        found == views(args@).contains(flag@),
{
    let mut i: usize = 0;
    while i < args.len()
        invariant
            i <= args.len(),
            forall|j: int| 0 <= j < i ==> views(args@)[j] != flag@,
        decreases args.len() - i,
    {
        if str_eq(args[i], flag) {
            assert(views(args@)[i as int] == flag@);
            return true;
        }
        i += 1;
    }
    false
}

/// What `has_all` says of the flag lists that the table uses.
proof fn lemma_has_all(tokens: Seq<Seq<char>>, a: Seq<char>, b: Seq<char>, c: Seq<char>)
    ensures
        has_all(tokens, seq![]),
        has_all(tokens, seq![a]) == tokens.contains(a),
        has_all(tokens, seq![a, b, c]) == (tokens.contains(a) && tokens.contains(b)
            && tokens.contains(c)),
{
    let one = seq![a];
    let three = seq![a, b, c];
    assert(one[0] == a);
    assert(three[0] == a && three[1] == b && three[2] == c);
}

/// Decides whether a command request may be executed. An empty request is
/// rejected; otherwise the first token selects the rule.
pub fn is_command_allowed(args: &[&str]) -> (allowed: bool)
    ensures
        allowed == command_allowed(views(args@)),
        args@.len() == 0 ==> !allowed,
{
    if args.len() == 0 {
        return false;
    }
    assert(views(args@)[0] == args@[0]@);
    proof {
        let tokens = views(args@);
        lemma_has_all(
            tokens,
            "--id"@,
            "--accept-source-agreements"@,
            "--accept-package-agreements"@,
        );
        lemma_has_all(tokens, "-o"@, "-o"@, "-o"@);
        lemma_has_all(tokens, "-i"@, "-i"@, "-i"@);
    }
    match Verb::parse(args[0]) {
        Some(Verb::Install) => {
            let id = has_flag(args, "--id");
            let source = has_flag(args, "--accept-source-agreements");
            let package = has_flag(args, "--accept-package-agreements");
            id && source && package
        },
        Some(Verb::Uninstall) => has_flag(args, "--id"),
        Some(Verb::Show) => has_flag(args, "--id"),
        Some(Verb::Export) => has_flag(args, "-o"),
        Some(Verb::Import) => has_flag(args, "-i"),
        Some(_) => true,
        None => false,
    }
}

} // verus!
