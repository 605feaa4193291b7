use kangaroos::attribute::args::{ArgError, MainArgs, TaskArgs};
use kangaroos::attribute::plan::{MainPlan, Place, PlanError, TaskPlan, SPAWNER_REQUIRED};
use kangaroos::attribute::tokens::{Input, Signature, Token};
use proc_macro2::{Delimiter, Spacing, TokenStream, TokenTree};
use std::str::FromStr;

/// The tokens of `source`.
fn lex(source: &str) -> Vec<Token> {
    let mut tokens = Vec::new();
    flatten(TokenStream::from_str(source).unwrap(), &mut tokens);
    tokens
}

/// Add the tokens of `stream`, each bracket as one of its own.
fn flatten(stream: TokenStream, tokens: &mut Vec<Token>) {
    for tree in stream {
        match tree {
            TokenTree::Group(g) => {
                let (open, close) = match g.delimiter() {
                    Delimiter::Parenthesis => ("(", ")"),
                    Delimiter::Bracket => ("[", "]"),
                    Delimiter::Brace => ("{", "}"),
                    Delimiter::None => panic!("invisible group"),
                };
                tokens.push(token(open, false));
                flatten(g.stream(), tokens);
                tokens.push(token(close, false));
            }
            TokenTree::Punct(p) => {
                tokens.push(token(&p.to_string(), p.spacing() == Spacing::Joint))
            }
            other => tokens.push(token(&other.to_string(), false)),
        }
    }
}

fn task_error(source: &str) -> String {
    match TaskArgs::parse(&lex(source)) {
        Ok(_) => panic!("accepted: {source}"),
        Err(e) => e.message(),
    }
}

fn main_error(source: &str) -> String {
    match MainArgs::parse(&lex(source)) {
        Ok(_) => panic!("accepted: {source}"),
        Err(e) => e.message(),
    }
}

fn task_args(source: &str) -> TaskArgs {
    match TaskArgs::parse(&lex(source)) {
        Ok(args) => args,
        Err(e) => panic!("{}", e.message()),
    }
}

fn main_plan_error(attr: &str, item: &str) -> PlanError {
    match MainPlan::expand(&lex(attr), item) {
        Ok(_) => panic!("accepted: {item}"),
        Err(e) => e,
    }
}

fn token(text: &str, joint: bool) -> Token {
    Token { text: text.to_string(), joint }
}

#[test]
fn task_defaults() {
    let args = task_args("");
    assert_eq!(args.priority, "0");
    assert_eq!(args.stack_size, "512usize");
    assert_eq!(args.time_slice, "10");
    assert!(args.name.is_none());
}

#[test]
fn task_all_keys() {
    let args = task_args("priority = 1, stack_size = 2048, time_slice = 20, name = \"foo bar\"");
    assert_eq!(args.priority, "1");
    assert_eq!(args.stack_size, "2048");
    assert_eq!(args.time_slice, "20");
    let name = args.name.unwrap();
    assert_eq!((name.value.as_str(), name.suffix.as_str()), ("foo bar", ""));
}

#[test]
fn task_commas_are_optional_and_later_keys_win() {
    let args = task_args("priority=1 stack_size = 4*256,priority = LOW ,");
    assert_eq!(args.priority, "LOW");
    assert_eq!(args.stack_size, "4 * 256");
}

#[test]
fn task_values_are_expressions() {
    let args = task_args("priority = if A == B { 1 } else { f(2, 3) }, time_slice = x::Y as u8");
    assert_eq!(args.time_slice, "x :: Y as u8");
    assert!(args.priority.starts_with("if A == B {"));
}

#[test]
fn task_refuses_unknown_keys() {
    assert_eq!(
        task_error("prio = 1"),
        "unknown attribute key `prio`; expected `priority`, `stack_size`, `time_slice`, or `name`"
    );
    assert!(matches!(
        TaskArgs::parse(&lex("priority = 1, cpu_hz = 4")),
        Err(ArgError::UnknownKey { .. })
    ));
}

#[test]
fn task_refuses_what_is_not_an_argument() {
    assert_eq!(task_error("5 = 1"), "expected identifier");
    assert_eq!(task_error("fn = 1"), "expected identifier, found keyword `fn`");
    assert_eq!(task_error("priority 1"), "expected `=`");
    assert_eq!(task_error("priority"), "expected `=`");
    assert_eq!(task_error("name = 5"), "expected string literal");
    assert_eq!(task_error("name ="), "unexpected end of input, expected string literal");
    assert!(matches!(TaskArgs::parse(&lex("priority = ,")), Err(ArgError::Value { at: 2, .. })));
    assert!(matches!(TaskArgs::parse(&lex("priority =")), Err(ArgError::Value { at: 2, .. })));
    assert!(matches!(
        TaskArgs::parse(&lex("priority = == 1")),
        Err(ArgError::Value { at: 2, .. })
    ));
}

#[test]
fn main_arguments() {
    let args = MainArgs::parse(&lex("cpu_hz = 8_000_000, max_tasks = 4")).ok().unwrap();
    assert_eq!(args.cpu_hz, "8_000_000");
    assert_eq!(args.max_tasks.as_deref(), Some("4"));
    let args = MainArgs::parse(&lex("cpu_hz = 1")).ok().unwrap();
    assert_eq!(args.max_tasks, None);
}

#[test]
fn main_errors() {
    assert_eq!(main_error(""), "`cpu_hz` is required");
    assert_eq!(main_error("max_tasks = 2"), "`cpu_hz` is required");
    assert_eq!(
        main_error("hz = 2"),
        "unknown attribute key `hz`; expected `cpu_hz` or `max_tasks`"
    );
}

#[test]
fn tokens_are_written_out_with_gaps() {
    let tokens = vec![token("a", false), token("=", true), token("=", false), token("1", false)];
    assert_eq!(Token::render(&tokens, 0, 4), "a == 1");
    assert_eq!(Token::render(&tokens, 2, 4), "= 1");
    assert_eq!(Token::render(&tokens, 0, 2), "a =");
    assert_eq!(Token::render(&tokens, 4, 4), "");
}

#[test]
fn plan_of_a_task_without_parameters() {
    let plan = TaskPlan::expand(&lex("priority = 2"), "fn heart_beat() -> ! { loop {} }").unwrap();
    assert_eq!(plan.factory, "heart_beat");
    assert_eq!(plan.implementation, "__impl_heart_beat");
    assert_eq!(plan.entry, "__impl_heart_beat");
    assert_eq!(plan.storage, "__STORAGE_HEART_BEAT");
    assert_eq!((plan.name.value.as_str(), plan.name.suffix.as_str()), ("heart_beat", ""));
    assert_eq!(plan.priority, "2");
    assert!(plan.inputs.is_empty());
}

#[test]
fn plan_of_a_task_with_parameters() {
    let plan = TaskPlan::expand(
        &lex("name = \"led\""),
        "fn blink(pin: u32, period_ms: u64) -> ! { loop {} }",
    )
    .unwrap();
    assert_eq!(plan.entry, "__entry_blink");
    assert_eq!(plan.params, "__PARAMS_BLINK");
    assert_eq!(plan.name.value, "led");
    assert_eq!(plan.inputs, vec![0, 1]);
}

#[test]
fn plan_leaves_out_self() {
    let plan = TaskPlan::expand(&lex(""), "fn go(&self, n: u8) {}").unwrap();
    assert_eq!(plan.inputs, vec![1]);
}

#[test]
fn plan_reports_errors() {
    let e = TaskPlan::expand(&lex("priority"), "fn f() {}").err().unwrap();
    assert_eq!((e.message.as_str(), e.place), ("expected `=`", Place::Argument(1)));
    let e = TaskPlan::expand(&lex(""), "struct S;").err().unwrap();
    assert_eq!(e.place, Place::Item);
}

#[test]
fn plan_of_main() {
    let plan = MainPlan::expand(&lex("cpu_hz = 8"), "fn main(spawner: &mut Spawner) {}").unwrap();
    assert!(plan.by_reference);
    assert_eq!(plan.cpu_hz, "8");
    assert_eq!(plan.max_tasks, None);
    let plan =
        MainPlan::expand(&lex("cpu_hz = 8, max_tasks = 2 + N"), "fn main(s: Spawner) {}").unwrap();
    assert!(!plan.by_reference);
    assert_eq!(plan.max_tasks.as_deref(), Some("2 + N"));
}

#[test]
fn plans_from_a_signature() {
    let sig = Signature { name: "a_1b".to_string(), inputs: vec![Input::Value] };
    let plan = TaskPlan::new(task_args("time_slice = 3"), sig);
    assert_eq!(plan.storage, "__STORAGE_A_1B");
    assert_eq!(plan.params, "__PARAMS_A_1B");
    assert_eq!(plan.entry, "__entry_a_1b");
    assert_eq!((plan.priority.as_str(), plan.stack_size.as_str()), ("0", "512usize"));
    assert_eq!(plan.time_slice, "3");
}

#[test]
fn plan_of_main_needs_a_spawner() {
    for item in ["fn main() {}", "fn main(self) {}"] {
        let e = main_plan_error("cpu_hz = 8", item);
        assert_eq!((e.message.as_str(), e.place), (SPAWNER_REQUIRED, Place::FunctionName));
    }
    let e = main_plan_error("", "fn main(s: Spawner) {}");
    assert_eq!((e.message.as_str(), e.place), ("`cpu_hz` is required", Place::CallSite));
    assert_eq!(main_plan_error("cpu_hz = 8", "const X: u8 = 1;").place, Place::Item);
}

#[test]
fn errors_stand_at_their_token() {
    let at = |source: &str| match TaskArgs::parse(&lex(source)) {
        Ok(_) => panic!("accepted: {source}"),
        Err(e) => e.position(),
    };
    assert_eq!(at("prio = 1"), Some(0));
    assert_eq!(at("priority = 1, cpu_hz = 4"), Some(4));
    assert_eq!(at("priority = 1, 5 = 4"), Some(4));
    assert_eq!(at("priority 1"), Some(1));
    assert_eq!(at("stack_size = 64, name = 5"), Some(6));
    let main_at = |source: &str| match MainArgs::parse(&lex(source)) {
        Ok(_) => panic!("accepted: {source}"),
        Err(e) => e.position(),
    };
    assert_eq!(main_at("cpu_hz = 1, hz = 2"), Some(4));
    assert_eq!(main_at("max_tasks = 2"), None);
}

#[test]
fn plans_show_an_unknown_key_where_it_stands() {
    let e = TaskPlan::expand(&lex("priority = 1, cpu_hz = 4"), "fn f() {}").err().unwrap();
    assert_eq!(e.place, Place::Argument(4));
    assert_eq!(
        e.message,
        "unknown attribute key `cpu_hz`; expected `priority`, `stack_size`, `time_slice`, or `name`"
    );
    let e = main_plan_error("hz = 2", "fn main(s: Spawner) {}");
    assert_eq!(e.place, Place::Argument(0));
}

#[test]
fn a_lifetime_is_no_key_and_no_string() {
    assert_eq!(task_error("'a = 1"), "expected identifier");
    assert_eq!(task_error("name = 'a"), "expected string literal");
}

#[test]
fn the_suffix_of_a_name_is_kept() {
    let plan = TaskPlan::expand(&lex("name = \"led\"x"), "fn f() {}").unwrap();
    assert_eq!((plan.name.value.as_str(), plan.name.suffix.as_str()), ("led", "x"));
}

#[test]
fn a_bracket_is_no_key_and_no_string() {
    assert_eq!(task_error("(a) = 1"), "expected identifier");
    assert_eq!(task_error("name = [1]"), "expected string literal");
}

#[test]
fn errors_in_a_value_stand_at_the_token_they_are_about() {
    let value_error = |source: &str| match TaskArgs::parse(&lex(source)) {
        Err(ArgError::Value { at, message }) => (at, message),
        _ => panic!("no such error: {source}"),
    };
    // At the comma.
    assert_eq!(value_error("priority = 1 + , name = \"x\""), (4, "expected an expression".to_string()));
    // Inside a bracket, where it closes.
    assert_eq!(value_error("priority = f(1, 2 *), time_slice = 3").0, 8);
    // Behind a text of several bytes for one character, and one of several lines.
    assert_eq!(value_error("priority = f(\"\u{e4}\u{20ac}\n\", =)").0, 6);
    // At the end of the arguments.
    assert_eq!(value_error("priority = 1 +").0, 4);
    assert_eq!(value_error("stack_size = 4, priority =").0, 6);
    let e = TaskPlan::expand(&lex("priority = 1 + ,"), "fn f() {}").err().unwrap();
    assert_eq!(e.place, Place::Argument(4));
}

#[test]
fn a_value_ends_where_the_next_key_starts() {
    let args = task_args("priority = [a(\"\u{20ac}\"), b][0] stack_size = { 4 } time_slice = -1");
    assert_eq!(args.priority, "[ a ( \"\u{20ac}\" ) , b ] [ 0 ]");
    assert_eq!(args.stack_size, "{ 4 }");
    assert_eq!(args.time_slice, "- 1");
}

#[test]
fn bytes_belong_to_tokens() {
    // Written as `a == 1`.
    let tokens = vec![token("a", false), token("=", true), token("=", false), token("1", false)];
    assert_eq!(Token::find(&tokens, 0, 0..1), 0);
    assert_eq!(Token::find(&tokens, 0, 2..3), 1);
    assert_eq!(Token::find(&tokens, 0, 3..4), 2);
    assert_eq!(Token::find(&tokens, 0, 5..6), 3);
    assert_eq!(Token::find(&tokens, 1, 0..1), 1);
    assert_eq!(Token::find(&tokens, 0, 6..7), 4);
    assert_eq!(Token::find(&tokens, 0, 0..0), 4);
}

#[test]
fn the_stack_has_a_word_for_four_bytes() {
    let plan = TaskPlan::expand(&lex("stack_size = 2 * 1024"), "fn f() {}").unwrap();
    assert_eq!(plan.stack_words(), "(2 * 1024 as usize) / 4");
}
