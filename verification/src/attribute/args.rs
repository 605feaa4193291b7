use crate::attribute::tokens::{
    parse_expr_prefix, parse_ident, parse_str_literal, StrLit, Token,
};
use vstd::prelude::*;

verus! {

/// Why the arguments of an attribute were refused, and at which token.
pub enum ArgError {
    /// No identifier stands where a key is due.
    Key { at: usize, message: String },
    /// No `=` stands behind a key; `at` is past the last token if nothing does.
    Equals { at: usize },
    /// No value of the right kind starts behind the `=`; `at` is the token where
    /// that shows, or past the last if nothing is left.
    Value { at: usize, message: String },
    /// There is no such key; `expected` lists those there are.
    UnknownKey { at: usize, key: String, expected: &'static str },
    /// The clock frequency is missing.
    MissingCpuHz,
}

/// An `ArgError` in terms of sequences.
pub enum Problem {
    Key { at: int, message: Seq<char> },
    Equals { at: int },
    Value { at: int, message: Seq<char> },
    UnknownKey { at: int, key: Seq<char>, expected: Seq<char> },
    MissingCpuHz,
}

impl View for ArgError {
    type V = Problem;

    open spec fn view(&self) -> Problem {
        match self {
            ArgError::Key { at, message } => Problem::Key { at: *at as int, message: message@ },
            ArgError::Equals { at } => Problem::Equals { at: *at as int },
            ArgError::Value { at, message } => Problem::Value { at: *at as int, message: message@ },
            ArgError::UnknownKey { at, key, expected } => Problem::UnknownKey {
                at: *at as int,
                key: key@,
                expected: expected@,
            },
            ArgError::MissingCpuHz => Problem::MissingCpuHz,
        }
    }
}

impl Problem {
    /// The text shown for the problem.
    pub open spec fn message(self) -> Seq<char> {
        match self {
            Problem::Key { message, .. } => message,
            Problem::Equals { .. } => "expected `=`"@,
            Problem::Value { message, .. } => message,
            Problem::UnknownKey { key, expected, .. } => "unknown attribute key `"@ + key
                + "`; expected "@ + expected,
            Problem::MissingCpuHz => "`cpu_hz` is required"@,
        }
    }

    /// The token the problem stands at, if it stands at one.
    pub open spec fn position(self) -> Option<int> {
        match self {
            Problem::Key { at, .. } => Some(at),
            Problem::Equals { at } => Some(at),
            Problem::Value { at, .. } => Some(at),
            Problem::UnknownKey { at, .. } => Some(at),
            Problem::MissingCpuHz => None,
        }
    }
}

impl ArgError {
    /// The text to show for the error.
    pub fn message(&self) -> (r: String)
        ensures
            r@ == self@.message(),
    {
        match self {
            ArgError::Key { message, .. } => message.clone(),
            ArgError::Equals { .. } => "expected `=`".to_owned(),
            ArgError::Value { message, .. } => message.clone(),
            ArgError::UnknownKey { key, expected, .. } => {
                let mut text: String = "unknown attribute key `".to_owned();
                text.append(key.as_str());
                text.append("`; expected ");
                text.append(*expected);
                text
            },
            ArgError::MissingCpuHz => "`cpu_hz` is required".to_owned(),
        }
    }

    /// The token the error stands at, if it stands at one.
    pub fn position(&self) -> (r: Option<usize>)
        ensures
            r is Some == self@.position() is Some,
            r matches Some(at) ==> self@.position() == Some(at as int),
    {
        match self {
            ArgError::Key { at, .. } => Some(*at),
            ArgError::Equals { at } => Some(*at),
            ArgError::Value { at, .. } => Some(*at),
            ArgError::UnknownKey { at, .. } => Some(*at),
            ArgError::MissingCpuHz => None,
        }
    }
}

/// Whether `text` is the word `word`.
fn is_word(text: &String, word: &str) -> (r: bool)
    ensures
        r == (text@ == word@),
{
    *text == word.to_owned()
}

/// `text` is the quote of a lifetime or a bracket, which is no whole token by
/// itself.
pub open spec fn is_part(text: Seq<char>) -> bool {
    ||| text == "'"@
    ||| text == "("@
    ||| text == ")"@
    ||| text == "["@
    ||| text == "]"@
    ||| text == "{"@
    ||| text == "}"@
}

/// Whether `text` is the quote of a lifetime or a bracket.
fn tells_part(text: &String) -> (r: bool)
    ensures
        r == is_part(text@),
{
    is_word(text, "'") || is_word(text, "(") || is_word(text, ")") || is_word(text, "[")
        || is_word(text, "]") || is_word(text, "{") || is_word(text, "}")
}

/// The key at position `at`, with the `=` behind it.
pub open spec fn key_at(tokens: Seq<(Seq<char>, bool)>, at: int) -> Result<Seq<char>, Problem> {
    if is_part(tokens[at].0) {
        Err(Problem::Key { at, message: "expected identifier"@ })
    } else {
        match crate::attribute::tokens::parsed_ident(tokens[at].0) {
            Err(message) => Err(Problem::Key { at, message }),
            Ok(key) => if at + 1 >= tokens.len() || tokens[at + 1].0 != "="@ {
                Err(Problem::Equals { at: at + 1 })
            } else {
                Ok(key)
            },
        }
    }
}

/// The expression at position `at`, and the position behind it; what is wrong
/// with it stands at the token that it is about.
pub open spec fn expr_at(tokens: Seq<(Seq<char>, bool)>, at: int) -> Result<
    (Seq<char>, int),
    Problem,
> {
    let n = tokens.len() as int;
    match crate::attribute::tokens::expr_prefix(Token::rendered(tokens, at, n)) {
        Err((message, (start, end))) => Err(
            Problem::Value { at: Token::place_of(tokens, at, start, end), message },
        ),
        Ok((start, end)) => {
            let next = Token::place_of(tokens, at, start, end);
            if at < next {
                Ok((Token::rendered(tokens, at, next), next))
            } else {
                Err(Problem::Value { at, message: "expected an expression"@ })
            }
        },
    }
}

/// What follows an expression stands behind its start, and not past the end.
pub proof fn lemma_expr_moves_on(tokens: Seq<(Seq<char>, bool)>, at: int)
    requires
        at <= tokens.len(),
    ensures
        expr_at(tokens, at) matches Ok((_, next)) ==> at < next <= tokens.len(),
{
    match crate::attribute::tokens::expr_prefix(Token::rendered(tokens, at, tokens.len() as int)) {
        Ok((start, _)) => Token::lemma_holding_in_range(tokens, at, start),
        Err(_) => {},
    }
}

/// The string literal at position `at`.
pub open spec fn str_at(tokens: Seq<(Seq<char>, bool)>, at: int) -> Result<
    (Seq<char>, Seq<char>),
    Problem,
> {
    if at >= tokens.len() {
        Err(Problem::Value { at, message: "unexpected end of input, expected string literal"@ })
    } else if is_part(tokens[at].0) {
        Err(Problem::Value { at, message: "expected string literal"@ })
    } else {
        match crate::attribute::tokens::parsed_str(tokens[at].0) {
            Err(message) => Err(Problem::Value { at, message }),
            Ok(literal) => Ok(literal),
        }
    }
}

/// The position behind `at` and behind the comma that may stand there.
pub open spec fn past_comma(tokens: Seq<(Seq<char>, bool)>, at: int) -> int {
    if at < tokens.len() && tokens[at].0 == ","@ {
        at + 1
    } else {
        at
    }
}

/// Read the key at position `at`, with the `=` behind it.
fn read_key(tokens: &Vec<Token>, at: usize) -> (r: Result<String, ArgError>)
    requires
        at < tokens@.len(),
    ensures
        match r {
            Ok(key) => key_at(Token::views(tokens@), at as int) == Ok::<Seq<char>, Problem>(key@),
            Err(e) => key_at(Token::views(tokens@), at as int) == Err::<Seq<char>, Problem>(e@),
        },
        r is Ok ==> at + 2 <= tokens@.len(),
{
    if tells_part(&tokens[at].text) {
        return Err(ArgError::Key { at, message: "expected identifier".to_owned() });
    }
    match parse_ident(tokens[at].text.as_str()) {
        Err(message) => Err(ArgError::Key { at, message }),
        Ok(key) => if tokens.len() - at < 2 || !is_word(&tokens[at + 1].text, "=") {
            Err(ArgError::Equals { at: at + 1 })
        } else {
            Ok(key)
        },
    }
}

/// Read the expression at position `at`, and return it with the position behind
/// it.
fn read_expr(tokens: &Vec<Token>, at: usize) -> (r: Result<(String, usize), ArgError>)
    requires
        at <= tokens@.len(),
    ensures
        match r {
            Ok((text, next)) => expr_at(Token::views(tokens@), at as int) == Ok::<
                (Seq<char>, int),
                Problem,
            >((text@, next as int)) && at < next <= tokens@.len(),
            Err(e) => expr_at(Token::views(tokens@), at as int) == Err::<
                (Seq<char>, int),
                Problem,
            >(e@),
        },
{
    let n: usize = tokens.len();
    match parse_expr_prefix(Token::render(tokens, at, n).as_str()) {
        Err((message, bytes)) => Err(
            ArgError::Value { at: Token::find(tokens, at, bytes), message },
        ),
        Ok(bytes) => {
            let next: usize = Token::find(tokens, at, bytes);
            if at < next {
                Ok((Token::render(tokens, at, next), next))
            } else {
                Err(ArgError::Value { at, message: "expected an expression".to_owned() })
            }
        },
    }
}

/// Read the string literal at position `at`.
fn read_str(tokens: &Vec<Token>, at: usize) -> (r: Result<StrLit, ArgError>)
    requires
        at <= tokens@.len(),
    ensures
        match r {
            Ok(literal) => str_at(Token::views(tokens@), at as int) == Ok::<
                (Seq<char>, Seq<char>),
                Problem,
            >(literal@) && at < tokens@.len(),
            Err(e) => str_at(Token::views(tokens@), at as int) == Err::<
                (Seq<char>, Seq<char>),
                Problem,
            >(e@),
        },
{
    if at >= tokens.len() {
        return Err(
            ArgError::Value {
                at,
                message: "unexpected end of input, expected string literal".to_owned(),
            },
        );
    }
    if tells_part(&tokens[at].text) {
        return Err(ArgError::Value { at, message: "expected string literal".to_owned() });
    }
    match parse_str_literal(tokens[at].text.as_str()) {
        Err(message) => Err(ArgError::Value { at, message }),
        Ok(literal) => Ok(literal),
    }
}

/// Step over a comma at position `at`.
fn skip_comma(tokens: &Vec<Token>, at: usize) -> (r: usize)
    requires
        at <= tokens@.len(),
    ensures
        r == past_comma(Token::views(tokens@), at as int),
        at <= r <= tokens@.len(),
{
    if at < tokens.len() && is_word(&tokens[at].text, ",") {
        at + 1
    } else {
        at
    }
}

/// The view of an optional text.
pub open spec fn text_view(text: Option<String>) -> Option<Seq<char>> {
    match text {
        Some(t) => Some(t@),
        None => None,
    }
}

/// The view of an optional literal.
pub open spec fn literal_view(literal: Option<StrLit>) -> Option<(Seq<char>, Seq<char>)> {
    match literal {
        Some(l) => Some(l@),
        None => None,
    }
}

/// The text that was given, or a default.
fn or_default(text: Option<String>, default: &str) -> (r: String)
    ensures
        r@ == (match text {
            Some(t) => t@,
            None => default@,
        }),
{
    match text {
        Some(t) => t,
        None => default.to_owned(),
    }
}

/// The keys a task attribute knows.
pub const TASK_KEYS: &'static str = "`priority`, `stack_size`, `time_slice`, or `name`";

/// The keys a main attribute knows.
pub const MAIN_KEYS: &'static str = "`cpu_hz` or `max_tasks`";

/// What the arguments of a task attribute have said so far; a key that comes
/// again overrides what it said before.
pub struct TaskFields {
    pub priority: Option<Seq<char>>,
    pub stack_size: Option<Seq<char>>,
    pub time_slice: Option<Seq<char>>,
    pub name: Option<(Seq<char>, Seq<char>)>,
}

/// What the arguments of a main attribute have said so far.
pub struct MainFields {
    pub cpu_hz: Option<Seq<char>>,
    pub max_tasks: Option<Seq<char>>,
}

/// The arguments of a task attribute.
///
/// Expressions are kept as they are written.
pub struct TaskArgs {
    /// Scheduling priority.
    pub priority: String,
    /// Stack size in bytes.
    pub stack_size: String,
    /// Round-robin quantum in ticks.
    pub time_slice: String,
    /// Human-readable name, the function name by default.
    pub name: Option<StrLit>,
}

/// The arguments of a main attribute.
pub struct MainArgs {
    /// Clock frequency of the processor.
    pub cpu_hz: String,
    /// Number of user tasks.
    pub max_tasks: Option<String>,
}

impl TaskFields {
    /// Nothing said yet.
    pub open spec fn empty() -> TaskFields {
        TaskFields { priority: None, stack_size: None, time_slice: None, name: None }
    }

    /// The fields with those that the arguments from `at` on set.
    pub open spec fn read(self, tokens: Seq<(Seq<char>, bool)>, at: int) -> Result<
        TaskFields,
        Problem,
    >
        decreases tokens.len() - at,
    {
        if at >= tokens.len() {
            Ok(self)
        } else {
            match key_at(tokens, at) {
                Err(problem) => Err(problem),
                Ok(key) => if key == "name"@ {
                    match str_at(tokens, at + 2) {
                        Err(problem) => Err(problem),
                        Ok(value) => (TaskFields { name: Some(value), ..self }).read(
                            tokens,
                            past_comma(tokens, at + 3),
                        ),
                    }
                } else if key == "priority"@ || key == "stack_size"@ || key == "time_slice"@ {
                    match expr_at(tokens, at + 2) {
                        Err(problem) => Err(problem),
                        Ok((expr, next)) => {
                            proof {
                                lemma_expr_moves_on(tokens, at + 2);
                            }
                            let fields = if key == "priority"@ {
                                TaskFields { priority: Some(expr), ..self }
                            } else if key == "stack_size"@ {
                                TaskFields { stack_size: Some(expr), ..self }
                            } else {
                                TaskFields { time_slice: Some(expr), ..self }
                            };
                            fields.read(tokens, past_comma(tokens, next))
                        },
                    }
                } else {
                    Err(Problem::UnknownKey { at, key, expected: TASK_KEYS@ })
                },
            }
        }
    }
}

impl MainFields {
    /// Nothing said yet.
    pub open spec fn empty() -> MainFields {
        MainFields { cpu_hz: None, max_tasks: None }
    }

    /// The fields with those that the arguments from `at` on set.
    pub open spec fn read(self, tokens: Seq<(Seq<char>, bool)>, at: int) -> Result<
        MainFields,
        Problem,
    >
        decreases tokens.len() - at,
    {
        if at >= tokens.len() {
            Ok(self)
        } else {
            match key_at(tokens, at) {
                Err(problem) => Err(problem),
                Ok(key) => if key == "cpu_hz"@ || key == "max_tasks"@ {
                    match expr_at(tokens, at + 2) {
                        Err(problem) => Err(problem),
                        Ok((expr, next)) => {
                            proof {
                                lemma_expr_moves_on(tokens, at + 2);
                            }
                            let fields = if key == "cpu_hz"@ {
                                MainFields { cpu_hz: Some(expr), ..self }
                            } else {
                                MainFields { max_tasks: Some(expr), ..self }
                            };
                            fields.read(tokens, past_comma(tokens, next))
                        },
                    }
                } else {
                    Err(Problem::UnknownKey { at, key, expected: MAIN_KEYS@ })
                },
            }
        }
    }
}

impl TaskFields {
    /// A task attribute without arguments is accepted, and says nothing.
    pub proof fn law_no_arguments_say_nothing(tokens: Seq<(Seq<char>, bool)>, args: TaskArgs)
        requires
            tokens.len() == 0,
            TaskArgs::parsed(tokens, Ok(args)),
        ensures
            args.priority@ == "0"@,
            args.stack_size@ == "512usize"@,
            args.time_slice@ == "10"@,
            args.name is None,
    {
    }

    /// Arguments are read in turn: a key that takes an expression sets its own field to
    /// the tokens of that expression, whatever it was before, and no other field; what
    /// is read next starts behind the expression, or behind the one comma that may
    /// follow it.
    pub proof fn law_arguments_are_read_in_turn(
        self,
        tokens: Seq<(Seq<char>, bool)>,
        at: int,
        key: Seq<char>,
        start: int,
        end: int,
    )
        requires
            0 <= at,
            at + 2 < tokens.len(),
            !is_part(tokens[at].0),
            crate::attribute::tokens::parsed_ident(tokens[at].0) == Ok::<Seq<char>, Seq<char>>(key),
            tokens[at + 1].0 == "="@,
            crate::attribute::tokens::expr_prefix(
                Token::rendered(tokens, at + 2, tokens.len() as int),
            ) == Ok::<(int, int), (Seq<char>, (int, int))>((start, end)),
            at + 2 < Token::place_of(tokens, at + 2, start, end),
            key == "priority"@ || key == "stack_size"@ || key == "time_slice"@,
        ensures
            ({
                let stop = Token::place_of(tokens, at + 2, start, end);
                let value = Some(Token::rendered(tokens, at + 2, stop));
                let next = if stop < tokens.len() && tokens[stop].0 == ","@ {
                    stop + 1
                } else {
                    stop
                };
                self.read(tokens, at) == (TaskFields {
                    priority: if key == "priority"@ {
                        value
                    } else {
                        self.priority
                    },
                    stack_size: if key == "stack_size"@ {
                        value
                    } else {
                        self.stack_size
                    },
                    time_slice: if key == "time_slice"@ {
                        value
                    } else {
                        self.time_slice
                    },
                    name: self.name,
                }).read(tokens, next)
            }),
    {
        reveal_strlit("name");
        reveal_strlit("priority");
        reveal_strlit("stack_size");
        reveal_strlit("time_slice");
        assert("name"@.len() == 4 && "priority"@.len() == 8);
        assert("priority"@[0] != "stack_size"@[0] && "stack_size"@[0] != "time_slice"@[0]);
        assert("priority"@[0] != "time_slice"@[0]);
    }

    /// The key `name` takes one string literal, and sets the name alone.
    pub proof fn law_names_are_string_literals(
        self,
        tokens: Seq<(Seq<char>, bool)>,
        at: int,
        value: (Seq<char>, Seq<char>),
    )
        requires
            0 <= at,
            at + 2 < tokens.len(),
            !is_part(tokens[at].0),
            crate::attribute::tokens::parsed_ident(tokens[at].0) == Ok::<Seq<char>, Seq<char>>(
                "name"@,
            ),
            tokens[at + 1].0 == "="@,
            !is_part(tokens[at + 2].0),
            crate::attribute::tokens::parsed_str(tokens[at + 2].0) == Ok::<
                (Seq<char>, Seq<char>),
                Seq<char>,
            >(value),
        ensures
            self.read(tokens, at) == (TaskFields {
                priority: self.priority,
                stack_size: self.stack_size,
                time_slice: self.time_slice,
                name: Some(value),
            }).read(
                tokens,
                if at + 3 < tokens.len() && tokens[at + 3].0 == ","@ {
                    at + 4
                } else {
                    at + 3
                },
            ),
    {
    }

    /// What is no key, or no known key, or a key without a `=`, is refused at its
    /// place, whatever has been read before.
    pub proof fn law_bad_keys_are_refused(
        self,
        tokens: Seq<(Seq<char>, bool)>,
        at: int,
        key: Seq<char>,
        message: Seq<char>,
    )
        requires
            0 <= at < tokens.len(),
            !is_part(tokens[at].0),
        ensures
            crate::attribute::tokens::parsed_ident(tokens[at].0) == Err::<Seq<char>, Seq<char>>(
                message,
            ) ==> self.read(tokens, at) == Err::<TaskFields, Problem>(
                Problem::Key { at, message },
            ),
            crate::attribute::tokens::parsed_ident(tokens[at].0) == Ok::<Seq<char>, Seq<char>>(key)
                && (at + 1 == tokens.len() || tokens[at + 1].0 != "="@) ==> self.read(tokens, at)
                == Err::<TaskFields, Problem>(Problem::Equals { at: at + 1 }),
            crate::attribute::tokens::parsed_ident(tokens[at].0) == Ok::<Seq<char>, Seq<char>>(key)
                && at + 1 < tokens.len() && tokens[at + 1].0 == "="@ && key != "priority"@ && key
                != "stack_size"@ && key != "time_slice"@ && key != "name"@ ==> (self.read(
                tokens,
                at,
            ) matches Err(Problem::UnknownKey { at: place, key: named, .. }) && place == at
                && named == key),
    {
    }

    /// One argument, an expression for all that follows the `=`, sets the field that
    /// its key names and no other.
    pub proof fn law_one_argument_sets_one_field(
        tokens: Seq<(Seq<char>, bool)>,
        key: Seq<char>,
        args: TaskArgs,
    )
        requires
            tokens.len() > 2,
            !is_part(tokens[0].0),
            crate::attribute::tokens::parsed_ident(tokens[0].0) == Ok::<Seq<char>, Seq<char>>(key),
            tokens[1].0 == "="@,
            crate::attribute::tokens::expr_prefix(
                Token::rendered(tokens, 2, tokens.len() as int),
            ) == Ok::<(int, int), (Seq<char>, (int, int))>((0, 0)),
            key == "priority"@ || key == "stack_size"@ || key == "time_slice"@,
            TaskArgs::parsed(tokens, Ok(args)),
        ensures
            ({
                let value = Token::rendered(tokens, 2, tokens.len() as int);
                &&& args.priority@ == (if key == "priority"@ {
                    value
                } else {
                    "0"@
                })
                &&& args.stack_size@ == (if key == "stack_size"@ {
                    value
                } else {
                    "512usize"@
                })
                &&& args.time_slice@ == (if key == "time_slice"@ {
                    value
                } else {
                    "10"@
                })
                &&& args.name is None
            }),
    {
        reveal_strlit("name");
        reveal_strlit("priority");
        reveal_strlit("stack_size");
        reveal_strlit("time_slice");
        assert("name"@.len() == 4 && "priority"@.len() == 8);
        assert("priority"@[0] != "stack_size"@[0] && "stack_size"@[0] != "time_slice"@[0]);
        assert("priority"@[0] != "time_slice"@[0]);
        reveal_with_fuel(TaskFields::read, 2);
    }
}

impl TaskArgs {
    /// The arguments are those that `fields` give, with the defaults for what is
    /// missing: priority 0, a stack of 512 bytes and a quantum of 10 ticks.
    pub open spec fn from_fields(self, fields: TaskFields) -> bool {
        &&& self.priority@ == fields.priority.unwrap_or("0"@)
        &&& self.stack_size@ == fields.stack_size.unwrap_or("512usize"@)
        &&& self.time_slice@ == fields.time_slice.unwrap_or("10"@)
        &&& literal_view(self.name) == fields.name
    }

    /// `r` is what the tokens are read as.
    pub open spec fn parsed(
        tokens: Seq<(Seq<char>, bool)>,
        r: Result<TaskArgs, ArgError>,
    ) -> bool {
        match TaskFields::empty().read(tokens, 0) {
            Ok(fields) => r matches Ok(args) && args.from_fields(fields),
            Err(problem) => r matches Err(e) && e@ == problem,
        }
    }

    /// Read the arguments of a task attribute, such as
    /// `priority = 1, stack_size = 2048, name = "blink"`.
    ///
    /// Every key is optional, and so are the commas.
    pub fn parse(tokens: &Vec<Token>) -> (r: Result<TaskArgs, ArgError>)
        ensures
            TaskArgs::parsed(Token::views(tokens@), r),
    {
        let ghost views = Token::views(tokens@);
        let mut priority: Option<String> = None;
        let mut stack_size: Option<String> = None;
        let mut time_slice: Option<String> = None;
        let mut name: Option<StrLit> = None;
        let ghost mut fields = TaskFields::empty();
        let mut at: usize = 0;
        while at < tokens.len()
            invariant
                at <= tokens@.len(),
                views == Token::views(tokens@),
                fields.priority == text_view(priority),
                fields.stack_size == text_view(stack_size),
                fields.time_slice == text_view(time_slice),
                fields.name == literal_view(name),
                fields.read(views, at as int) == TaskFields::empty().read(views, 0),
            decreases tokens@.len() - at,
        {
            let key: String = match read_key(tokens, at) {
                Err(e) => {
                    return Err(e);
                },
                Ok(key) => key,
            };
            if is_word(&key, "name") {
                let value: StrLit = match read_str(tokens, at + 2) {
                    Err(e) => {
                        return Err(e);
                    },
                    Ok(value) => value,
                };
                proof {
                    fields = TaskFields { name: Some(value@), ..fields };
                }
                name = Some(value);
                at = skip_comma(tokens, at + 3);
            } else if is_word(&key, "priority") || is_word(&key, "stack_size") || is_word(
                &key,
                "time_slice",
            ) {
                let (expr, next) = match read_expr(tokens, at + 2) {
                    Err(e) => {
                        return Err(e);
                    },
                    Ok(value) => value,
                };
                if is_word(&key, "priority") {
                    proof {
                        fields = TaskFields { priority: Some(expr@), ..fields };
                    }
                    priority = Some(expr);
                } else if is_word(&key, "stack_size") {
                    proof {
                        fields = TaskFields { stack_size: Some(expr@), ..fields };
                    }
                    stack_size = Some(expr);
                } else {
                    proof {
                        fields = TaskFields { time_slice: Some(expr@), ..fields };
                    }
                    time_slice = Some(expr);
                }
                at = skip_comma(tokens, next);
            } else {
                return Err(ArgError::UnknownKey { at, key, expected: TASK_KEYS });
            }
        }
        Ok(
            TaskArgs {
                priority: or_default(priority, "0"),
                stack_size: or_default(stack_size, "512usize"),
                time_slice: or_default(time_slice, "10"),
                name,
            },
        )
    }
}

impl MainFields {
    /// Arguments of a main attribute are read in turn as those of a task are.
    pub proof fn law_arguments_are_read_in_turn(
        self,
        tokens: Seq<(Seq<char>, bool)>,
        at: int,
        key: Seq<char>,
        start: int,
        end: int,
    )
        requires
            0 <= at,
            at + 2 < tokens.len(),
            !is_part(tokens[at].0),
            crate::attribute::tokens::parsed_ident(tokens[at].0) == Ok::<Seq<char>, Seq<char>>(key),
            tokens[at + 1].0 == "="@,
            crate::attribute::tokens::expr_prefix(
                Token::rendered(tokens, at + 2, tokens.len() as int),
            ) == Ok::<(int, int), (Seq<char>, (int, int))>((start, end)),
            at + 2 < Token::place_of(tokens, at + 2, start, end),
            key == "cpu_hz"@ || key == "max_tasks"@,
        ensures
            ({
                let stop = Token::place_of(tokens, at + 2, start, end);
                let value = Some(Token::rendered(tokens, at + 2, stop));
                let next = if stop < tokens.len() && tokens[stop].0 == ","@ {
                    stop + 1
                } else {
                    stop
                };
                self.read(tokens, at) == (MainFields {
                    cpu_hz: if key == "cpu_hz"@ {
                        value
                    } else {
                        self.cpu_hz
                    },
                    max_tasks: if key == "max_tasks"@ {
                        value
                    } else {
                        self.max_tasks
                    },
                }).read(tokens, next)
            }),
    {
        reveal_strlit("cpu_hz");
        reveal_strlit("max_tasks");
        assert("cpu_hz"@[0] != "max_tasks"@[0]);
    }

    /// What is no known key is refused at its place.
    pub proof fn law_unknown_keys_are_refused(
        self,
        tokens: Seq<(Seq<char>, bool)>,
        at: int,
        key: Seq<char>,
    )
        requires
            0 <= at,
            at + 1 < tokens.len(),
            !is_part(tokens[at].0),
            crate::attribute::tokens::parsed_ident(tokens[at].0) == Ok::<Seq<char>, Seq<char>>(key),
            tokens[at + 1].0 == "="@,
            key != "cpu_hz"@,
            key != "max_tasks"@,
        ensures
            self.read(tokens, at) matches Err(Problem::UnknownKey { at: place, key: named, .. })
                && place == at && named == key,
    {
    }

    /// A main attribute is accepted only with a clock frequency.
    pub proof fn law_the_clock_is_required(
        tokens: Seq<(Seq<char>, bool)>,
        r: Result<MainArgs, ArgError>,
    )
        requires
            tokens.len() == 0,
            MainArgs::parsed(tokens, r),
        ensures
            r matches Err(e) && e@ is MissingCpuHz,
    {
    }
}

impl MainArgs {
    /// The arguments are those that `fields` give.
    pub open spec fn from_fields(self, fields: MainFields) -> bool {
        &&& fields.cpu_hz == Some(self.cpu_hz@)
        &&& text_view(self.max_tasks) == fields.max_tasks
    }

    /// `r` is what the tokens are read as.
    pub open spec fn parsed(
        tokens: Seq<(Seq<char>, bool)>,
        r: Result<MainArgs, ArgError>,
    ) -> bool {
        match MainFields::empty().read(tokens, 0) {
            Ok(fields) => if fields.cpu_hz is Some {
                r matches Ok(args) && args.from_fields(fields)
            } else {
                r matches Err(e) && e@ == Problem::MissingCpuHz
            },
            Err(problem) => r matches Err(e) && e@ == problem,
        }
    }

    /// Read the arguments of a main attribute, such as
    /// `cpu_hz = 8_000_000, max_tasks = 4`.
    ///
    /// The clock frequency is required.
    pub fn parse(tokens: &Vec<Token>) -> (r: Result<MainArgs, ArgError>)
        ensures
            MainArgs::parsed(Token::views(tokens@), r),
    {
        let ghost views = Token::views(tokens@);
        let mut cpu_hz: Option<String> = None;
        let mut max_tasks: Option<String> = None;
        let ghost mut fields = MainFields::empty();
        let mut at: usize = 0;
        while at < tokens.len()
            invariant
                at <= tokens@.len(),
                views == Token::views(tokens@),
                fields.cpu_hz == text_view(cpu_hz),
                fields.max_tasks == text_view(max_tasks),
                fields.read(views, at as int) == MainFields::empty().read(views, 0),
            decreases tokens@.len() - at,
        {
            let key: String = match read_key(tokens, at) {
                Err(e) => {
                    return Err(e);
                },
                Ok(key) => key,
            };
            if is_word(&key, "cpu_hz") || is_word(&key, "max_tasks") {
                let (expr, next) = match read_expr(tokens, at + 2) {
                    Err(e) => {
                        return Err(e);
                    },
                    Ok(value) => value,
                };
                if is_word(&key, "cpu_hz") {
                    proof {
                        fields = MainFields { cpu_hz: Some(expr@), ..fields };
                    }
                    cpu_hz = Some(expr);
                } else {
                    proof {
                        fields = MainFields { max_tasks: Some(expr@), ..fields };
                    }
                    max_tasks = Some(expr);
                }
                at = skip_comma(tokens, next);
            } else {
                return Err(ArgError::UnknownKey { at, key, expected: MAIN_KEYS });
            }
        }
        match cpu_hz {
            None => Err(ArgError::MissingCpuHz),
            Some(cpu_hz) => Ok(MainArgs { cpu_hz, max_tasks }),
        }
    }
}

} // verus!
