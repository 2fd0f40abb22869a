//! Scaffolding: names in Pascal, snake and kebab case, the templates of generated
//! files, and the plan of what `make:*` writes.
use vstd::prelude::*;
use crate::text;

verus! {

// ───────────────────────── cases ─────────────────────────

/// Whether `char::is_uppercase` holds (Unicode's uppercase property, not spelled out).
pub uninterp spec fn unicode_uppercase(c: char) -> bool;

/// `char::is_uppercase`.
#[verifier::external_body]
fn is_uppercase(c: char) -> (r: bool)
    ensures
        r == unicode_uppercase(c),
{
    c.is_uppercase()
}

pub open spec fn is_word_break(c: char) -> bool {
    c == '_' || c == '-' || c == ' '
}

/// Pascal case from `s` on: breaks (`_`, `-`, space) are dropped and the character
/// after a break (and the first) is put in ASCII uppercase.
pub open spec fn pascal_from(s: Seq<char>, upper: bool) -> Seq<char>
    decreases s.len(),
{
    if s.len() == 0 {
        Seq::empty()
    } else if is_word_break(s[0]) {
        pascal_from(s.drop_first(), true)
    } else if upper {
        seq![text::upper_ascii(s[0])] + pascal_from(s.drop_first(), false)
    } else {
        seq![s[0]] + pascal_from(s.drop_first(), false)
    }
}

pub open spec fn pascal(s: Seq<char>) -> Seq<char> {
    pascal_from(s, true)
}

proof fn lemma_pascal_rest(s: Seq<char>)
    requires
        forall|i: int| 0 <= i < s.len() ==> !is_word_break(#[trigger] s[i]),
    ensures
        pascal_from(s, false) == s,
    decreases s.len(),
{
    if s.len() > 0 {
        assert(!is_word_break(s[0]));
        lemma_pascal_rest(s.drop_first());
        assert(seq![s[0]] + s.drop_first() =~= s);
    }
}

/// A name with no `_`, `-` or space keeps every character but the first as written;
/// the first is put in ASCII uppercase.
pub proof fn lemma_pascal_keeps_word(s: Seq<char>)
    requires
        s.len() > 0,
        forall|i: int| 0 <= i < s.len() ==> !(#[trigger] s[i] == '_' || s[i] == '-' || s[i] == ' '),
    ensures
        pascal(s).len() == s.len(),
        pascal(s)[0] == text::upper_ascii(s[0]),
        forall|i: int| 1 <= i < s.len() ==> #[trigger] pascal(s)[i] == s[i],
{
    assert forall|i: int| 0 <= i < s.drop_first().len() implies !is_word_break(#[trigger] s.drop_first()[i]) by {
        assert(s.drop_first()[i] == s[i + 1]);
    }
    lemma_pascal_rest(s.drop_first());
    assert(!is_word_break(s[0]));
}

/// A name already in Pascal case (an ASCII capital, then no `_`, `-` or space) is left
/// as it is.
pub proof fn lemma_pascal_of_pascal(s: Seq<char>)
    requires
        s.len() > 0,
        'A' <= s[0] <= 'Z',
        forall|i: int| 0 <= i < s.len() ==> !(#[trigger] s[i] == '_' || s[i] == '-' || s[i] == ' '),
    ensures
        pascal(s) == s,
{
    lemma_pascal_keeps_word(s);
    assert(pascal(s) =~= s);
}

proof fn lemma_pascal_from_split(x: Seq<char>, b: char, y: Seq<char>, u: bool)
    requires
        is_word_break(b),
    ensures
        pascal_from(x + seq![b] + y, u) == pascal_from(x, u) + pascal(y),
    decreases x.len(),
{
    if x.len() == 0 {
        assert(x + seq![b] + y =~= seq![b] + y);
        assert((seq![b] + y).drop_first() =~= y);
    } else {
        assert((x + seq![b] + y).drop_first() =~= x.drop_first() + seq![b] + y);
        assert((x + seq![b] + y)[0] == x[0]);
        if is_word_break(x[0]) {
            lemma_pascal_from_split(x.drop_first(), b, y, true);
        } else {
            lemma_pascal_from_split(x.drop_first(), b, y, false);
            assert(seq![x[0]] + pascal_from(x.drop_first(), false) + pascal(y) =~= seq![x[0]] + (
            pascal_from(x.drop_first(), false) + pascal(y)));
            assert(seq![text::upper_ascii(x[0])] + pascal_from(x.drop_first(), false) + pascal(y)
                =~= seq![text::upper_ascii(x[0])] + (pascal_from(x.drop_first(), false) + pascal(y)));
        }
    }
}

/// Words are put in Pascal case one by one: a `_`, `-` or space between two parts
/// is dropped and each part is converted on its own.
pub proof fn lemma_pascal_of_words(x: Seq<char>, b: char, y: Seq<char>)
    requires
        b == '_' || b == '-' || b == ' ',
    ensures
        pascal(x + seq![b] + y) == pascal(x) + pascal(y),
{
    lemma_pascal_from_split(x, b, y, true);
}

/// The snake-case text of the character at position `i`.
pub open spec fn snake_piece(c: char, i: int) -> Seq<char> {
    if c == '-' || c == ' ' {
        seq!['_']
    } else if unicode_uppercase(c) && i > 0 {
        seq!['_', text::lower_ascii(c)]
    } else {
        seq![text::lower_ascii(c)]
    }
}

/// Snake case: dashes and spaces become `_`, an uppercase letter after the first
/// character gets a `_` before it, and letters are put in ASCII lowercase.
pub open spec fn snake(s: Seq<char>) -> Seq<char>
    decreases s.len(),
{
    if s.len() == 0 {
        Seq::empty()
    } else {
        snake(s.drop_last()) + snake_piece(s.last(), s.len() - 1)
    }
}

/// Kebab case: snake case with `-` for `_`.
pub open spec fn kebab(s: Seq<char>) -> Seq<char> {
    snake(s).map_values(|c: char| if c == '_' { '-' } else { c })
}

pub fn to_pascal(s: &str) -> (r: String)
    ensures
        r@ == pascal(s@),
{
    let cs = text::chars_of(s);
    let mut out: Vec<char> = Vec::new();
    let mut upper = true;
    let mut i: usize = 0;
    proof {
        assert(cs@.skip(0) =~= cs@);
    }
    while i < cs.len()
        invariant
            i <= cs@.len(),
            cs@ == s@,
            pascal(s@) == out@ + pascal_from(cs@.skip(i as int), upper),
        decreases cs@.len() - i,
    {
        let c = cs[i];
        proof {
            assert(cs@.skip(i as int).drop_first() =~= cs@.skip(i + 1));
            assert(cs@.skip(i as int)[0] == c);
        }
        if c == '_' || c == '-' || c == ' ' {
            upper = true;
        } else if upper {
            let u = text::to_ascii_upper(c);
            proof {
                assert(out@.push(u) + pascal_from(cs@.skip(i + 1), false) =~= out@ + (seq![u]
                    + pascal_from(cs@.skip(i + 1), false)));
            }
            out.push(u);
            upper = false;
        } else {
            proof {
                assert(out@.push(c) + pascal_from(cs@.skip(i + 1), false) =~= out@ + (seq![c]
                    + pascal_from(cs@.skip(i + 1), false)));
            }
            out.push(c);
        }
        i += 1;
    }
    proof {
        assert(cs@.skip(i as int).len() == 0);
        assert(out@ + Seq::<char>::empty() =~= out@);
    }
    text::string_of(out.as_slice())
}

pub fn to_snake(s: &str) -> (r: String)
    ensures
        r@ == snake(s@),
{
    let cs = text::chars_of(s);
    let mut out: Vec<char> = Vec::new();
    let mut i: usize = 0;
    proof {
        assert(cs@.take(0) =~= Seq::<char>::empty());
    }
    while i < cs.len()
        invariant
            i <= cs@.len(),
            cs@ == s@,
            out@ == snake(cs@.take(i as int)),
        decreases cs@.len() - i,
    {
        let c = cs[i];
        proof {
            assert(cs@.take(i + 1).drop_last() =~= cs@.take(i as int));
            assert(cs@.take(i + 1).last() == c);
        }
        if c == '-' || c == ' ' {
            out.push('_');
            proof {
                assert(out@ =~= snake(cs@.take(i + 1)));
            }
        } else if is_uppercase(c) && i > 0 {
            out.push('_');
            let l = text::to_ascii_lower(c);
            out.push(l);
            proof {
                assert(out@ =~= snake(cs@.take(i + 1)));
            }
        } else {
            let l = text::to_ascii_lower(c);
            out.push(l);
            proof {
                assert(out@ =~= snake(cs@.take(i + 1)));
            }
        }
        i += 1;
    }
    proof {
        assert(cs@.take(i as int) =~= cs@);
    }
    text::string_of(out.as_slice())
}

pub fn to_kebab(s: &str) -> (r: String)
    ensures
        r@ == kebab(s@),
{
    let sn = to_snake(s);
    let cs = text::chars_of(sn.as_str());
    let mut out: Vec<char> = Vec::new();
    let mut i: usize = 0;
    while i < cs.len()
        invariant
            i <= cs@.len(),
            cs@ == snake(s@),
            out@ == kebab(s@).take(i as int),
        decreases cs@.len() - i,
    {
        let c = if cs[i] == '_' {
            '-'
        } else {
            cs[i]
        };
        proof {
            assert(kebab(s@).take(i + 1) =~= kebab(s@).take(i as int).push(c));
        }
        out.push(c);
        i += 1;
    }
    proof {
        assert(kebab(s@).take(i as int) =~= kebab(s@));
    }
    text::string_of(out.as_slice())
}

// ───────────────────────── templates ─────────────────────────

/// What kind of file a scaffold writes.
#[derive(Debug, Clone, Copy, PartialEq, Eq, Structural)]
pub enum ScaffoldKind {
    Controller,
    Middleware,
    Model,
    Route,
    Command,
    Event,
    Job,
    Mail,
    Notification,
    Query,
    Module,
    Domain,
}

pub open spec fn tpl_model_text(pascal: Seq<char>, snake: Seq<char>) -> Seq<char> {
    "use serde::{Serialize, Deserialize};\n\n#[derive(Debug, Clone, Serialize, Deserialize)]\npub struct "@
        + pascal + " {\n    pub id: i64,\n}\n"@
}

pub fn tpl_model(pascal: &str, _snake: &str) -> (r: String)
    ensures
        r@ == tpl_model_text(pascal@, _snake@),
{
    text::cat3(
        "use serde::{Serialize, Deserialize};\n\n#[derive(Debug, Clone, Serialize, Deserialize)]\npub struct ",
        pascal,
        " {\n    pub id: i64,\n}\n",
    )
}

pub open spec fn tpl_route_text(pascal: Seq<char>, snake: Seq<char>) -> Seq<char> {
    "use viontin::{Request, Response};\n\npub fn index(_req: Request) -> Response {\n    Response::html(\"<h1>"@
        + pascal + "</h1>\")\n}\n"@
}

pub fn tpl_route(pascal: &str, _snake: &str) -> (r: String)
    ensures
        r@ == tpl_route_text(pascal@, _snake@),
{
    text::cat3(
        "use viontin::{Request, Response};\n\npub fn index(_req: Request) -> Response {\n    Response::html(\"<h1>",
        pascal,
        "</h1>\")\n}\n",
    )
}

pub open spec fn tpl_command_text(pascal: Seq<char>, snake: Seq<char>) -> Seq<char> {
    "use viontin_tui::{Command, Input, Output, ExitCode};\n\npub struct "@ + pascal
        + ";\n\nimpl Command for "@ + pascal + " {\n    fn signature(&self) -> &str { \""@
        + kebab(snake)
        + "\" }\n    fn description(&self) -> &str { \"Describe what this command does\" }\n\n    fn handle(&self, _input: &Input, output: &Output) -> ExitCode {\n        output.success(\"Done\");\n        ExitCode::Success\n    }\n}\n"@
}

pub fn tpl_command(pascal: &str, snake: &str) -> (r: String)
    ensures
        r@ == tpl_command_text(pascal@, snake@),
{
    let k = to_kebab(snake);
    let a = text::cat3("use viontin_tui::{Command, Input, Output, ExitCode};\n\npub struct ", pascal, ";\n\nimpl Command for ");
    let b = text::cat3(a.as_str(), pascal, " {\n    fn signature(&self) -> &str { \"");
    text::cat3(
        b.as_str(),
        k.as_str(),
        "\" }\n    fn description(&self) -> &str { \"Describe what this command does\" }\n\n    fn handle(&self, _input: &Input, output: &Output) -> ExitCode {\n        output.success(\"Done\");\n        ExitCode::Success\n    }\n}\n",
    )
}

pub open spec fn tpl_event_text(pascal: Seq<char>, snake: Seq<char>) -> Seq<char> {
    "use serde::{Serialize, Deserialize};\n\n#[derive(Debug, Clone, Serialize, Deserialize)]\npub struct "@
        + pascal + " {\n    // event payload\n}\n"@
}

pub fn tpl_event(pascal: &str, _snake: &str) -> (r: String)
    ensures
        r@ == tpl_event_text(pascal@, _snake@),
{
    text::cat3(
        "use serde::{Serialize, Deserialize};\n\n#[derive(Debug, Clone, Serialize, Deserialize)]\npub struct ",
        pascal,
        " {\n    // event payload\n}\n",
    )
}

pub open spec fn tpl_job_text(pascal: Seq<char>, snake: Seq<char>) -> Seq<char> {
    "#[derive(Debug)]\npub struct "@ + pascal + ";\n\nimpl "@ + pascal
        + " {\n    pub fn handle(self) -> Result<(), String> {\n        Ok(())\n    }\n\n    pub fn name(&self) -> &str {\n        \""@
        + kebab(snake) + "\"\n    }\n}\n"@
}

pub fn tpl_job(pascal: &str, snake: &str) -> (r: String)
    ensures
        r@ == tpl_job_text(pascal@, snake@),
{
    let k = to_kebab(snake);
    let a = text::cat3("#[derive(Debug)]\npub struct ", pascal, ";\n\nimpl ");
    let b = text::cat3(
        a.as_str(),
        pascal,
        " {\n    pub fn handle(self) -> Result<(), String> {\n        Ok(())\n    }\n\n    pub fn name(&self) -> &str {\n        \"",
    );
    text::cat3(b.as_str(), k.as_str(), "\"\n    }\n}\n")
}

pub open spec fn tpl_mail_text(pascal: Seq<char>, snake: Seq<char>) -> Seq<char> {
    "use viontin::fw::mail::Envelope;\n\npub fn build(to: &str) -> Envelope {\n    Envelope {\n        from: \"hello@example.com\".into(),\n        to: vec![to.into()],\n        subject: \"Subject\".into(),\n        html_body: \"<h1>Hello from "@
        + pascal + "</h1>\".into(),\n        text_body: \"Hello from "@ + pascal
        + "\".into(),\n        ..Default::default()\n    }\n}\n"@
}

pub fn tpl_mail(pascal: &str, _snake: &str) -> (r: String)
    ensures
        r@ == tpl_mail_text(pascal@, _snake@),
{
    let a = text::cat3(
        "use viontin::fw::mail::Envelope;\n\npub fn build(to: &str) -> Envelope {\n    Envelope {\n        from: \"hello@example.com\".into(),\n        to: vec![to.into()],\n        subject: \"Subject\".into(),\n        html_body: \"<h1>Hello from ",
        pascal,
        "</h1>\".into(),\n        text_body: \"Hello from ",
    );
    text::cat3(a.as_str(), pascal, "\".into(),\n        ..Default::default()\n    }\n}\n")
}

pub open spec fn tpl_notification_text(pascal: Seq<char>, snake: Seq<char>) -> Seq<char> {
    "use viontin::fw::notif::{Notification, Notifiable};\n\n#[derive(Debug, Clone)]\npub struct "@
        + pascal + ";\n\nimpl Notification for "@ + pascal
        + " {\n    fn channels(&self) -> Vec<&'static str> { vec![\"mail\"] }\n\n    fn to_mail(&self, _notifiable: &dyn Notifiable) -> Option<String> {\n        Some(\"Notification body\".into())\n    }\n}\n"@
}

pub fn tpl_notification(pascal: &str, _snake: &str) -> (r: String)
    ensures
        r@ == tpl_notification_text(pascal@, _snake@),
{
    let a = text::cat3(
        "use viontin::fw::notif::{Notification, Notifiable};\n\n#[derive(Debug, Clone)]\npub struct ",
        pascal,
        ";\n\nimpl Notification for ",
    );
    text::cat3(
        a.as_str(),
        pascal,
        " {\n    fn channels(&self) -> Vec<&'static str> { vec![\"mail\"] }\n\n    fn to_mail(&self, _notifiable: &dyn Notifiable) -> Option<String> {\n        Some(\"Notification body\".into())\n    }\n}\n",
    )
}

pub open spec fn tpl_query_text(pascal: Seq<char>, snake: Seq<char>) -> Seq<char> {
    "pub fn execute() -> Result<Vec<String>, String> {\n    Ok(vec![])\n}\n"@
}

pub fn tpl_query(_pascal: &str, _snake: &str) -> (r: String)
    ensures
        r@ == tpl_query_text(_pascal@, _snake@),
{
    text::owned("pub fn execute() -> Result<Vec<String>, String> {\n    Ok(vec![])\n}\n")
}

pub open spec fn tpl_module_text(pascal: Seq<char>, snake: Seq<char>) -> Seq<char> {
    "// "@ + pascal + " module\n\npub fn init() {\n    // module initialization\n}\n"@
}

pub fn tpl_module(pascal: &str, _snake: &str) -> (r: String)
    ensures
        r@ == tpl_module_text(pascal@, _snake@),
{
    text::cat3("// ", pascal, " module\n\npub fn init() {\n    // module initialization\n}\n")
}

pub fn tpl_domain(pascal: &str, snake: &str) -> (r: String)
    ensures
        r@ == tpl_domain_text(pascal@, snake@),
{
    let a = text::cat3(
        "use viontin::Domain;\n\n/// ",
        pascal,
        " domain definition.\n///\n/// The `allows` list declares which other domains this domain\n/// may import from. Any cross-domain import not listed here\n/// will be flagged by `viontin check --arch`.\npub const DEFINITION: Domain = Domain::new(\"",
    );
    text::cat3(
        a.as_str(),
        snake,
        "\")\n    .allows(&[]);\n\n// ── Public API (ports) ──\n// Expose only what other domains need to use from here.\n// Keep internal details private to maintain the boundary.\n",
    )
}

pub open spec fn tpl_controller_text(pascal: Seq<char>, snake: Seq<char>) -> Seq<char> {
    "use viontin::{Request, Response};\n\npub fn index(_req: Request) -> Response {\n    Response::html(\"<h1>"@
        + pascal + "</h1>\")\n}\n"@
}

pub fn tpl_controller(pascal: &str, _snake: &str) -> (r: String)
    ensures
        r@ == tpl_controller_text(pascal@, _snake@),
{
    tpl_route(pascal, _snake)
}

pub open spec fn tpl_middleware_text(pascal: Seq<char>, snake: Seq<char>) -> Seq<char> {
    "use viontin::{Request, Response};\n\npub struct "@ + pascal + ";\n\nimpl "@ + pascal
        + " {\n    pub fn handle(req: Request, next: fn(Request) -> Response) -> Response {\n        next(req)\n    }\n}\n"@
}

pub fn tpl_middleware(pascal: &str, _snake: &str) -> (r: String)
    ensures
        r@ == tpl_middleware_text(pascal@, _snake@),
{
    let a = text::cat3("use viontin::{Request, Response};\n\npub struct ", pascal, ";\n\nimpl ");
    text::cat3(
        a.as_str(),
        pascal,
        " {\n    pub fn handle(req: Request, next: fn(Request) -> Response) -> Response {\n        next(req)\n    }\n}\n",
    )
}

// ───────────────────────── usage hints ─────────────────────────

pub open spec fn hint_model_text(pascal: Seq<char>, snake: Seq<char>) -> Seq<char> {
    "Use it with: models::YourModel"@
}

pub fn hint_model(_pascal: &str, _snake: &str) -> (r: String)
    ensures
        r@ == hint_model_text(_pascal@, _snake@),
{
    text::owned("Use it with: models::YourModel")
}

pub open spec fn hint_route_text(pascal: Seq<char>, snake: Seq<char>) -> Seq<char> {
    "Register in Router: .get(\"/\", Arc::new("@ + pascal + "::index))"@
}

pub fn hint_route(pascal: &str, _snake: &str) -> (r: String)
    ensures
        r@ == hint_route_text(pascal@, _snake@),
{
    text::cat3("Register in Router: .get(\"/\", Arc::new(", pascal, "::index))")
}

pub open spec fn hint_command_text(pascal: Seq<char>, snake: Seq<char>) -> Seq<char> {
    "Register in Kernel: .register(commands::"@ + snake + "::"@ + pascal + ")"@
}

pub fn hint_command(pascal: &str, snake: &str) -> (r: String)
    ensures
        r@ == hint_command_text(pascal@, snake@),
{
    let a = text::cat3("Register in Kernel: .register(commands::", snake, "::");
    text::cat3(a.as_str(), pascal, ")")
}

pub open spec fn hint_event_text(pascal: Seq<char>, snake: Seq<char>) -> Seq<char> {
    "Use in EventDispatcher: dispatcher.dispatch(&"@ + pascal + " {...})"@
}

pub fn hint_event(pascal: &str, _snake: &str) -> (r: String)
    ensures
        r@ == hint_event_text(pascal@, _snake@),
{
    text::cat3("Use in EventDispatcher: dispatcher.dispatch(&", pascal, " {...})")
}

pub open spec fn hint_job_text(pascal: Seq<char>, snake: Seq<char>) -> Seq<char> {
    "Queue it with: queue.push(MyJob)"@
}

pub fn hint_job(_pascal: &str, _snake: &str) -> (r: String)
    ensures
        r@ == hint_job_text(_pascal@, _snake@),
{
    text::owned("Queue it with: queue.push(MyJob)")
}

pub open spec fn hint_mail_text(pascal: Seq<char>, snake: Seq<char>) -> Seq<char> {
    "Send with: Mail::new(transport).send("@ + pascal + "::build(\"user@example.com\"))"@
}

pub fn hint_mail(pascal: &str, _snake: &str) -> (r: String)
    ensures
        r@ == hint_mail_text(pascal@, _snake@),
{
    text::cat3("Send with: Mail::new(transport).send(", pascal, "::build(\"user@example.com\"))")
}

pub open spec fn hint_notification_text(pascal: Seq<char>, snake: Seq<char>) -> Seq<char> {
    "Notify with: notif.send(&user, &"@ + pascal + ")"@
}

pub fn hint_notification(pascal: &str, _snake: &str) -> (r: String)
    ensures
        r@ == hint_notification_text(pascal@, _snake@),
{
    text::cat3("Notify with: notif.send(&user, &", pascal, ")")
}

pub open spec fn hint_query_text(pascal: Seq<char>, snake: Seq<char>) -> Seq<char> {
    "Call with: "@ + pascal + "::execute()"@
}

pub fn hint_query(pascal: &str, _snake: &str) -> (r: String)
    ensures
        r@ == hint_query_text(pascal@, _snake@),
{
    text::cat3("Call with: ", pascal, "::execute()")
}

pub open spec fn hint_module_text(pascal: Seq<char>, snake: Seq<char>) -> Seq<char> {
    "Import with: mod "@ + snake + ";"@
}

pub fn hint_module(_pascal: &str, snake: &str) -> (r: String)
    ensures
        r@ == hint_module_text(_pascal@, snake@),
{
    text::cat3("Import with: mod ", snake, ";")
}

pub open spec fn hint_domain_text(pascal: Seq<char>, snake: Seq<char>) -> Seq<char> {
    "Register in main.rs and run \x1b[33mviontin check --arch\x1b[0m to verify boundaries.\n  Edit src/domain/"@
        + snake + "/domain.rs to declare allowed dependencies."@
}

pub fn hint_domain(_pascal: &str, snake: &str) -> (r: String)
    ensures
        r@ == hint_domain_text(_pascal@, snake@),
{
    text::cat3(
        "Register in main.rs and run \x1b[33mviontin check --arch\x1b[0m to verify boundaries.\n  Edit src/domain/",
        snake,
        "/domain.rs to declare allowed dependencies.",
    )
}

pub open spec fn hint_controller_text(pascal: Seq<char>, snake: Seq<char>) -> Seq<char> {
    "Register route: .get(\"/\", Arc::new("@ + pascal + "::index))"@
}

pub fn hint_controller(pascal: &str, _snake: &str) -> (r: String)
    ensures
        r@ == hint_controller_text(pascal@, _snake@),
{
    text::cat3("Register route: .get(\"/\", Arc::new(", pascal, "::index))")
}

pub open spec fn hint_middleware_text(pascal: Seq<char>, snake: Seq<char>) -> Seq<char> {
    "Use with: Router middleware chain"@
}

pub fn hint_middleware(_pascal: &str, _snake: &str) -> (r: String)
    ensures
        r@ == hint_middleware_text(_pascal@, _snake@),
{
    text::owned("Use with: Router middleware chain")
}

// ───────────────────────── scaffolds ─────────────────────────

/// The signature of the `make:*` command of a kind.
pub open spec fn scaffold_sig(kind: ScaffoldKind) -> Seq<char> {
    match kind {
        ScaffoldKind::Controller => "make:controller {name} {--force}"@,
        ScaffoldKind::Middleware => "make:middleware {name} {--force}"@,
        ScaffoldKind::Model => "make:model {name} {--force}"@,
        ScaffoldKind::Route => "make:route {name} {--force}"@,
        ScaffoldKind::Command => "make:command {name} {--force}"@,
        ScaffoldKind::Event => "make:event {name} {--force}"@,
        ScaffoldKind::Job => "make:job {name} {--force}"@,
        ScaffoldKind::Mail => "make:mail {name} {--force}"@,
        ScaffoldKind::Notification => "make:notification {name} {--force}"@,
        ScaffoldKind::Query => "make:query {name} {--force}"@,
        ScaffoldKind::Module => "make:module {name} {--force}"@,
        ScaffoldKind::Domain => "make:domain {name} {--force}"@,
    }
}

/// The description of the `make:*` command of a kind.
pub open spec fn scaffold_desc(kind: ScaffoldKind) -> Seq<char> {
    match kind {
        ScaffoldKind::Controller => "Scaffold a new controller"@,
        ScaffoldKind::Middleware => "Scaffold a new middleware"@,
        ScaffoldKind::Model => "Scaffold a new model"@,
        ScaffoldKind::Route => "Scaffold a new route handler"@,
        ScaffoldKind::Command => "Scaffold a new CLI command"@,
        ScaffoldKind::Event => "Scaffold a new event"@,
        ScaffoldKind::Job => "Scaffold a new job"@,
        ScaffoldKind::Mail => "Scaffold a new mail template"@,
        ScaffoldKind::Notification => "Scaffold a new notification"@,
        ScaffoldKind::Query => "Scaffold a new query"@,
        ScaffoldKind::Module => "Scaffold a new module with mod.rs"@,
        ScaffoldKind::Domain => "Scaffold a new domain with boundary definition"@,
    }
}

/// The directory under `src/` that files of a kind go in (none for a module).
pub open spec fn scaffold_dir(kind: ScaffoldKind) -> Seq<char> {
    match kind {
        ScaffoldKind::Controller => "controllers"@,
        ScaffoldKind::Middleware => "middleware"@,
        ScaffoldKind::Model => "models"@,
        ScaffoldKind::Route => "routes"@,
        ScaffoldKind::Command => "commands"@,
        ScaffoldKind::Event => "events"@,
        ScaffoldKind::Job => "jobs"@,
        ScaffoldKind::Mail => "mail"@,
        ScaffoldKind::Notification => "notifications"@,
        ScaffoldKind::Query => "queries"@,
        ScaffoldKind::Module => ""@,
        ScaffoldKind::Domain => "domain"@,
    }
}

/// The content of the file of a kind, for a name in Pascal and snake case.
pub open spec fn template_text(kind: ScaffoldKind, pascal: Seq<char>, snake: Seq<char>) -> Seq<char> {
    match kind {
        ScaffoldKind::Controller => tpl_controller_text(pascal, snake),
        ScaffoldKind::Middleware => tpl_middleware_text(pascal, snake),
        ScaffoldKind::Model => tpl_model_text(pascal, snake),
        ScaffoldKind::Route => tpl_route_text(pascal, snake),
        ScaffoldKind::Command => tpl_command_text(pascal, snake),
        ScaffoldKind::Event => tpl_event_text(pascal, snake),
        ScaffoldKind::Job => tpl_job_text(pascal, snake),
        ScaffoldKind::Mail => tpl_mail_text(pascal, snake),
        ScaffoldKind::Notification => tpl_notification_text(pascal, snake),
        ScaffoldKind::Query => tpl_query_text(pascal, snake),
        ScaffoldKind::Module => tpl_module_text(pascal, snake),
        ScaffoldKind::Domain => tpl_domain_text(pascal, snake),
    }
}

/// The hint shown after a file of a kind is written.
pub open spec fn usage_text(kind: ScaffoldKind, pascal: Seq<char>, snake: Seq<char>) -> Seq<char> {
    match kind {
        ScaffoldKind::Controller => hint_controller_text(pascal, snake),
        ScaffoldKind::Middleware => hint_middleware_text(pascal, snake),
        ScaffoldKind::Model => hint_model_text(pascal, snake),
        ScaffoldKind::Route => hint_route_text(pascal, snake),
        ScaffoldKind::Command => hint_command_text(pascal, snake),
        ScaffoldKind::Event => hint_event_text(pascal, snake),
        ScaffoldKind::Job => hint_job_text(pascal, snake),
        ScaffoldKind::Mail => hint_mail_text(pascal, snake),
        ScaffoldKind::Notification => hint_notification_text(pascal, snake),
        ScaffoldKind::Query => hint_query_text(pascal, snake),
        ScaffoldKind::Module => hint_module_text(pascal, snake),
        ScaffoldKind::Domain => hint_domain_text(pascal, snake),
    }
}

/// A `make:*` command: its signature, description, target directory (empty for a
/// module of its own) and kind of file.
#[derive(Debug, Clone, Copy)]
pub struct ScaffoldType {
    pub sig: &'static str,
    pub desc: &'static str,
    pub dir: &'static str,
    pub kind: ScaffoldKind,
    pub is_domain: bool,
}

impl ScaffoldType {
    /// The scaffold of a kind.
    pub fn of(kind: ScaffoldKind) -> (r: ScaffoldType)
        ensures
            r.kind == kind,
            r.is_domain == (kind == ScaffoldKind::Domain),
            r.dir@.len() == 0 <==> kind == ScaffoldKind::Module,
            r.sig@ == scaffold_sig(kind),
            r.desc@ == scaffold_desc(kind),
            r.dir@ == scaffold_dir(kind),
    {
        let r = match kind {
            ScaffoldKind::Controller => ScaffoldType {
                sig: "make:controller {name} {--force}",
                desc: "Scaffold a new controller",
                dir: "controllers",
                kind,
                is_domain: false,
            },
            ScaffoldKind::Middleware => ScaffoldType {
                sig: "make:middleware {name} {--force}",
                desc: "Scaffold a new middleware",
                dir: "middleware",
                kind,
                is_domain: false,
            },
            ScaffoldKind::Model => ScaffoldType {
                sig: "make:model {name} {--force}",
                desc: "Scaffold a new model",
                dir: "models",
                kind,
                is_domain: false,
            },
            ScaffoldKind::Route => ScaffoldType {
                sig: "make:route {name} {--force}",
                desc: "Scaffold a new route handler",
                dir: "routes",
                kind,
                is_domain: false,
            },
            ScaffoldKind::Command => ScaffoldType {
                sig: "make:command {name} {--force}",
                desc: "Scaffold a new CLI command",
                dir: "commands",
                kind,
                is_domain: false,
            },
            ScaffoldKind::Event => ScaffoldType {
                sig: "make:event {name} {--force}",
                desc: "Scaffold a new event",
                dir: "events",
                kind,
                is_domain: false,
            },
            ScaffoldKind::Job => ScaffoldType {
                sig: "make:job {name} {--force}",
                desc: "Scaffold a new job",
                dir: "jobs",
                kind,
                is_domain: false,
            },
            ScaffoldKind::Mail => ScaffoldType {
                sig: "make:mail {name} {--force}",
                desc: "Scaffold a new mail template",
                dir: "mail",
                kind,
                is_domain: false,
            },
            ScaffoldKind::Notification => ScaffoldType {
                sig: "make:notification {name} {--force}",
                desc: "Scaffold a new notification",
                dir: "notifications",
                kind,
                is_domain: false,
            },
            ScaffoldKind::Query => ScaffoldType {
                sig: "make:query {name} {--force}",
                desc: "Scaffold a new query",
                dir: "queries",
                kind,
                is_domain: false,
            },
            ScaffoldKind::Module => ScaffoldType {
                sig: "make:module {name} {--force}",
                desc: "Scaffold a new module with mod.rs",
                dir: "",
                kind,
                is_domain: false,
            },
            ScaffoldKind::Domain => ScaffoldType {
                sig: "make:domain {name} {--force}",
                desc: "Scaffold a new domain with boundary definition",
                dir: "domain",
                kind,
                is_domain: true,
            },
        };
        proof {
            reveal_strlit("");
            reveal_strlit("controllers");
            reveal_strlit("middleware");
            reveal_strlit("models");
            reveal_strlit("routes");
            reveal_strlit("commands");
            reveal_strlit("events");
            reveal_strlit("jobs");
            reveal_strlit("mail");
            reveal_strlit("notifications");
            reveal_strlit("queries");
            reveal_strlit("domain");
        }
        r
    }

    /// The content of the file for a name given in Pascal and snake case.
    pub fn template(&self, pascal: &str, snake: &str) -> (r: String)
        ensures
            r@ == template_text(self.kind, pascal@, snake@),
    {
        match self.kind {
            ScaffoldKind::Controller => tpl_controller(pascal, snake),
            ScaffoldKind::Middleware => tpl_middleware(pascal, snake),
            ScaffoldKind::Model => tpl_model(pascal, snake),
            ScaffoldKind::Route => tpl_route(pascal, snake),
            ScaffoldKind::Command => tpl_command(pascal, snake),
            ScaffoldKind::Event => tpl_event(pascal, snake),
            ScaffoldKind::Job => tpl_job(pascal, snake),
            ScaffoldKind::Mail => tpl_mail(pascal, snake),
            ScaffoldKind::Notification => tpl_notification(pascal, snake),
            ScaffoldKind::Query => tpl_query(pascal, snake),
            ScaffoldKind::Module => tpl_module(pascal, snake),
            ScaffoldKind::Domain => tpl_domain(pascal, snake),
        }
    }

    /// The hint shown after the file is written.
    pub fn usage(&self, pascal: &str, snake: &str) -> (r: String)
        ensures
            r@ == usage_text(self.kind, pascal@, snake@),
    {
        match self.kind {
            ScaffoldKind::Controller => hint_controller(pascal, snake),
            ScaffoldKind::Middleware => hint_middleware(pascal, snake),
            ScaffoldKind::Model => hint_model(pascal, snake),
            ScaffoldKind::Route => hint_route(pascal, snake),
            ScaffoldKind::Command => hint_command(pascal, snake),
            ScaffoldKind::Event => hint_event(pascal, snake),
            ScaffoldKind::Job => hint_job(pascal, snake),
            ScaffoldKind::Mail => hint_mail(pascal, snake),
            ScaffoldKind::Notification => hint_notification(pascal, snake),
            ScaffoldKind::Query => hint_query(pascal, snake),
            ScaffoldKind::Module => hint_module(pascal, snake),
            ScaffoldKind::Domain => hint_domain(pascal, snake),
        }
    }
}

/// A `make:*` command.
#[derive(Debug, Clone, Copy)]
pub struct MakeScaffoldCommand {
    pub scaffold: ScaffoldType,
}

/// What `make:*` writes for a name, apart from the `mod.rs` of its directory.
#[derive(Debug, Clone)]
pub struct ScaffoldPlan {
    /// The command's name, shown as the title.
    pub title: String,
    pub pascal: String,
    pub snake: String,
    /// The directory under the project, `src/<dir>` or `src/<snake>` for a module.
    pub target_dir: String,
    /// `mod.rs` for a module, `<snake>.rs` otherwise.
    pub file_name: String,
    pub content: String,
    /// Whether the directory's `mod.rs` is to list the new file.
    pub register_in_mod: bool,
    pub hint: String,
}

impl MakeScaffoldCommand {
    pub fn signature(&self) -> (r: &str)
        ensures
            r == self.scaffold.sig,
    {
        self.scaffold.sig
    }

    pub fn description(&self) -> (r: &str)
        ensures
            r == self.scaffold.desc,
    {
        self.scaffold.desc
    }

    /// The plan for `name`.
    pub fn plan(&self, name: &str) -> (r: ScaffoldPlan)
        ensures
            r.pascal@ == pascal(name@),
            r.snake@ == snake(name@),
            r.target_dir@ == "src/"@ + (if self.scaffold.dir@.len() == 0 {
                snake(name@)
            } else {
                self.scaffold.dir@
            }),
            r.file_name@ == (if self.scaffold.dir@.len() == 0 {
                "mod.rs"@
            } else {
                snake(name@) + ".rs"@
            }),
            r.register_in_mod == (self.scaffold.dir@.len() > 0),
            r.content@ == template_text(self.scaffold.kind, pascal(name@), snake(name@)),
            r.hint@ == usage_text(self.scaffold.kind, pascal(name@), snake(name@)),
            r.title@ == (if text::split_ws(self.scaffold.sig@).len() > 0 {
                text::split_ws(self.scaffold.sig@)[0]
            } else {
                self.scaffold.sig@
            }),
    {
        let p = to_pascal(name);
        let s = to_snake(name);
        let dir_empty = text::str_eq(self.scaffold.dir, "");
        proof {
            reveal_strlit("");
            if self.scaffold.dir@.len() == 0 {
                assert(self.scaffold.dir@ =~= ""@);
            }
        }
        let target = if dir_empty {
            text::cat("src/", s.as_str())
        } else {
            text::cat("src/", self.scaffold.dir)
        };
        let file_name = if dir_empty {
            text::owned("mod.rs")
        } else {
            text::cat(s.as_str(), ".rs")
        };
        let content = self.scaffold.template(p.as_str(), s.as_str());
        let hint = self.scaffold.usage(p.as_str(), s.as_str());
        let sc = text::chars_of(self.scaffold.sig);
        let words = text::split_ws_exec(sc.as_slice());
        let title = if words.len() > 0 {
            text::string_of(words[0].as_slice())
        } else {
            text::owned(self.scaffold.sig)
        };
        ScaffoldPlan {
            title,
            pascal: p,
            snake: s,
            target_dir: target,
            file_name,
            content,
            register_in_mod: !dir_empty,
            hint,
        }
    }
}

// ───────────────────────── mod.rs files ─────────────────────────

/// The line that declares module `name`.
pub open spec fn mod_line(name: Seq<char>) -> Seq<char> {
    "pub mod "@ + name + seq![';']
}

/// Whether some line of a `mod.rs`, trimmed, declares module `name`.
pub open spec fn has_mod_entry(content: Seq<char>, name: Seq<char>) -> bool {
    exists|i: int|
        0 <= i < text::lines(content).len() && text::trim(#[trigger] text::lines(content)[i])
            == mod_line(name)
}

/// Whether a `mod.rs` declares module `name`.
pub fn mod_has_entry(content: &str, name: &str) -> (r: bool)
    ensures
        r == has_mod_entry(content@, name@),
{
    let entry = text::cat3("pub mod ", name, ";");
    proof {
        reveal_strlit(";");
    }
    let ec = text::chars_of(entry.as_str());
    let cs = text::chars_of(content);
    let ls = text::lines_exec(cs.as_slice());
    let mut i: usize = 0;
    while i < ls.len()
        invariant
            i <= ls@.len(),
            text::views(ls@) == text::lines(content@),
            ec@ == mod_line(name@),
            forall|j: int|
                0 <= j < i ==> text::trim(#[trigger] text::lines(content@)[j]) != mod_line(name@),
        decreases ls@.len() - i,
    {
        let t = text::trim_exec(ls[i].as_slice());
        proof {
            assert(text::lines(content@)[i as int] == ls@[i as int]@);
        }
        if text::chars_eq(t.as_slice(), ec.as_slice()) {
            return true;
        }
        i += 1;
    }
    false
}

/// The text of a `mod.rs` that also declares `name`: without it, the new file; with
/// it, the old one with its trailing whitespace cut and the line added; `None` where
/// the entry is there already.
pub open spec fn mod_file_after(existing: Option<Seq<char>>, name: Seq<char>) -> Option<Seq<char>> {
    match existing {
        None => Some(mod_line(name) + seq!['\n']),
        Some(c) => if has_mod_entry(c, name) {
            None
        } else {
            Some(text::trim_end(c) + seq!['\n'] + mod_line(name) + seq!['\n'])
        },
    }
}

/// The new text of a directory's `mod.rs` once `name` is added, if it changes.
pub fn mod_file_update(existing: Option<&str>, name: &str) -> (r: Option<String>)
    ensures
        match r {
            Some(s) => mod_file_after(
                match existing {
                    Some(c) => Some(c@),
                    None => None,
                },
                name@,
            ) == Some(s@),
            None => mod_file_after(
                match existing {
                    Some(c) => Some(c@),
                    None => None,
                },
                name@,
            ) is None,
        },
{
    let line = text::cat3("pub mod ", name, ";");
    proof {
        reveal_strlit(";");
        reveal_strlit("\n");
    }
    match existing {
        None => Some(text::cat(line.as_str(), "\n")),
        Some(c) => {
            if mod_has_entry(c, name) {
                None
            } else {
                let cs = text::chars_of(c);
                let t = text::trim_end_exec(cs.as_slice());
                let ts = text::string_of(t.as_slice());
                let a = text::cat3(ts.as_str(), "\n", line.as_str());
                Some(text::cat(a.as_str(), "\n"))
            }
        },
    }
}

/// The files of a new domain, relative to `src/domain/<snake>/`, with their text:
/// `domain.rs`, `port.rs` and `mod.rs`.
pub fn domain_files(pascal: &str, snake: &str) -> (r: Vec<(String, String)>)
    ensures
        r@.len() == 3,
        r@[0].0@ == "domain.rs"@,
        r@[0].1@ == tpl_domain_text(pascal@, snake@),
        r@[1].0@ == "port.rs"@,
        r@[1].1@ == "// "@ + pascal@
            + " — public API (ports)\n//\n// Expose only what other domains need.\n// Keep internal details private to maintain the boundary.\n"@,
        r@[2].0@ == "mod.rs"@,
        r@[2].1@ == "pub mod domain;\npub mod port;\n"@,
{
    let mut out: Vec<(String, String)> = Vec::new();
    out.push((text::owned("domain.rs"), tpl_domain(pascal, snake)));
    out.push(
        (
            text::owned("port.rs"),
            text::cat3(
                "// ",
                pascal,
                " — public API (ports)\n//\n// Expose only what other domains need.\n// Keep internal details private to maintain the boundary.\n",
            ),
        ),
    );
    out.push((text::owned("mod.rs"), text::owned("pub mod domain;\npub mod port;\n")));
    out
}

/// The text of `domain.rs` for a new domain.
pub open spec fn tpl_domain_text(pascal: Seq<char>, snake: Seq<char>) -> Seq<char> {
    "use viontin::Domain;\n\n/// "@ + pascal
        + " domain definition.\n///\n/// The `allows` list declares which other domains this domain\n/// may import from. Any cross-domain import not listed here\n/// will be flagged by `viontin check --arch`.\npub const DEFINITION: Domain = Domain::new(\""@
        + snake
        + "\")\n    .allows(&[]);\n\n// ── Public API (ports) ──\n// Expose only what other domains need to use from here.\n// Keep internal details private to maintain the boundary.\n"@
}

} // verus!
