use crate::attribute::args::{ArgError, MainArgs, Problem, TaskArgs};
use crate::attribute::tokens::{
    parse_signature, to_uppercase, Input, Signature, StrLit, Token,
};
use vstd::prelude::*;

verus! {

/// Shown when a main function has no parameter for the spawner.
pub const SPAWNER_REQUIRED: &'static str =
    "#[kangaroos::main] requires exactly one parameter for the spawner, e.g. `fn main(spawner: &mut Spawner)`";

/// What a task attribute makes of a function: the names of the generated items
/// and the values they are made with.
pub struct TaskPlan {
    /// The factory function, named like the task function.
    pub factory: String,
    /// The renamed task function.
    pub implementation: String,
    /// The static that holds stack and control block.
    pub storage: String,
    /// The static that holds the arguments, for a task that has any.
    pub params: String,
    /// The function that a task starts in.
    pub entry: String,
    /// The name stored in the control block.
    pub name: StrLit,
    /// Scheduling priority.
    pub priority: String,
    /// Stack size in bytes.
    pub stack_size: String,
    /// Round-robin quantum in ticks.
    pub time_slice: String,
    /// Which parameters of the task function are passed on, by position.
    pub inputs: Vec<usize>,
}

/// What a main attribute makes of a function.
pub struct MainPlan {
    /// Whether the type of the spawner parameter is a reference, to be taken to
    /// what it refers to.
    pub by_reference: bool,
    /// Clock frequency of the processor.
    pub cpu_hz: String,
    /// Number of user tasks, if it is limited.
    pub max_tasks: Option<String>,
}

/// Where an error is shown.
#[derive(Copy, Clone, PartialEq, Eq, Debug, Structural)]
pub enum Place {
    /// At the attribute as a whole.
    CallSite,
    /// At a token of the arguments, or at the attribute as a whole past the last.
    Argument(usize),
    /// In the item under the attribute, where it cannot be read.
    Item,
    /// At the name of the function under the attribute.
    FunctionName,
}

/// An error to show.
#[derive(Debug)]
pub struct PlanError {
    /// The text.
    pub message: String,
    /// Where it is shown.
    pub place: Place,
}

impl PlanError {
    /// The error shows `problem` where it stands.
    pub open spec fn shows(self, problem: Problem) -> bool {
        &&& self.message@ == problem.message()
        &&& match problem.position() {
            Some(at) => self.place matches Place::Argument(p) && p == at,
            None => self.place is CallSite,
        }
    }

    /// The error that shows `e`.
    fn of_argument(e: ArgError) -> (r: PlanError)
        ensures
            r.shows(e@),
    {
        let place: Place = match e.position() {
            Some(at) => Place::Argument(at),
            None => Place::CallSite,
        };
        PlanError { message: e.message(), place }
    }
}

/// The positions of the parameters other than `self`.
pub open spec fn typed(inputs: Seq<Input>) -> Seq<usize>
    decreases inputs.len(),
{
    if inputs.len() == 0 {
        Seq::empty()
    } else if inputs.last() is Receiver {
        typed(inputs.drop_last())
    } else {
        typed(inputs.drop_last()).push((inputs.len() - 1) as usize)
    }
}

/// The parameters that are passed on are all those that are not `self`, each once and
/// in order.
pub proof fn law_every_parameter_is_passed_on(inputs: Seq<Input>, i: int)
    requires
        inputs.len() <= usize::MAX,
        0 <= i < inputs.len(),
    ensures
        typed(inputs).contains(i as usize) <==> inputs[i] != Input::Receiver,
        forall|a: int, b: int|
            0 <= a < b < typed(inputs).len() ==> #[trigger] typed(inputs)[a]
                < #[trigger] typed(inputs)[b],
        forall|a: int|
            0 <= a < typed(inputs).len() ==> #[trigger] typed(inputs)[a] < inputs.len(),
    decreases inputs.len(),
{
    let rest = inputs.drop_last();
    let before = typed(rest);
    if rest.len() > 0 {
        law_every_parameter_is_passed_on(
            rest,
            if i < rest.len() {
                i
            } else {
                0
            },
        );
    }
    if !(inputs.last() is Receiver) {
        let last = (inputs.len() - 1) as usize;
        assert(typed(inputs) == before.push(last));
        assert(typed(inputs)[before.len() as int] == last);
        assert forall|x: usize| typed(inputs).contains(x) == (before.contains(x) || x == last) by {
            if before.contains(x) {
                let a = choose|a: int| 0 <= a < before.len() && before[a] == x;
                assert(typed(inputs)[a] == x);
            }
            if typed(inputs).contains(x) {
                let a = choose|a: int| 0 <= a < typed(inputs).len() && typed(inputs)[a] == x;
                assert(a < before.len() ==> before[a] == x);
            }
        }
    }
}

/// `prefix` followed by `name`.
fn prefixed(prefix: &str, name: &str) -> (r: String)
    ensures
        r@ == prefix@ + name@,
{
    let mut text: String = prefix.to_owned();
    text.append(name);
    text
}

/// The positions of the parameters other than `self`, in order.
fn typed_inputs(inputs: &Vec<Input>) -> (r: Vec<usize>)
    ensures
        r@ == typed(inputs@),
{
    let mut out: Vec<usize> = Vec::new();
    let mut i: usize = 0;
    while i < inputs.len()
        invariant
            i <= inputs@.len(),
            out@ == typed(inputs@.take(i as int)),
        decreases inputs@.len() - i,
    {
        proof {
            assert(inputs@.take(i + 1).drop_last() =~= inputs@.take(i as int));
            assert(inputs@.take(i + 1).last() == inputs@[i as int]);
        }
        if !matches!(inputs[i], Input::Receiver) {
            out.push(i);
        }
        i = i + 1;
    }
    assert(inputs@.take(i as int) =~= inputs@);
    out
}

impl TaskPlan {
    /// The plan is what `args` and a function `name` with the parameters
    /// `inputs` call for.
    ///
    /// A task without parameters starts in the renamed function itself, one with
    /// parameters in a function that unpacks them.
    pub open spec fn is_for(self, args: TaskArgs, name: Seq<char>, inputs: Seq<Input>) -> bool {
        let upper = crate::attribute::tokens::uppercase(name);
        &&& self.factory@ == name
        &&& self.implementation@ == "__impl_"@ + name
        &&& self.storage@ == "__STORAGE_"@ + upper
        &&& self.params@ == "__PARAMS_"@ + upper
        &&& self.entry@ == if typed(inputs).len() == 0 {
            "__impl_"@ + name
        } else {
            "__entry_"@ + name
        }
        &&& self.name@ == (match args.name {
            Some(given) => given@,
            None => (name, ""@),
        })
        &&& self.priority@ == args.priority@
        &&& self.stack_size@ == args.stack_size@
        &&& self.time_slice@ == args.time_slice@
        &&& self.inputs@ == typed(inputs)
    }

    /// The statics are named after the function `name` in upper case, letter by
    /// letter, if it is ASCII.
    pub open spec fn has_ascii_names(self, name: Seq<char>) -> bool {
        crate::attribute::tokens::is_ascii_text(name) ==> {
            let upper = crate::attribute::tokens::ascii_uppercase(name);
            &&& self.storage@ == "__STORAGE_"@ + upper
            &&& self.params@ == "__PARAMS_"@ + upper
        }
    }

    /// The number of words of the stack, as an expression: a word takes four
    /// bytes.
    pub fn stack_words(&self) -> (r: String)
        ensures
            r@ == "("@ + self.stack_size@ + " as usize) / 4"@,
    {
        let mut text: String = prefixed("(", self.stack_size.as_str());
        text.append(" as usize) / 4");
        text
    }

    /// Plan the expansion of a task attribute with the arguments `args` on a
    /// function with the signature `sig`.
    pub fn new(args: TaskArgs, sig: Signature) -> (r: TaskPlan)
        ensures
            r.is_for(args, sig.name@, sig.inputs@),
            r.has_ascii_names(sig.name@),
    {
        let upper: String = to_uppercase(sig.name.as_str());
        let inputs: Vec<usize> = typed_inputs(&sig.inputs);
        let name: String = sig.name;
        let entry: String = if inputs.len() == 0 {
            prefixed("__impl_", name.as_str())
        } else {
            prefixed("__entry_", name.as_str())
        };
        TaskPlan {
            implementation: prefixed("__impl_", name.as_str()),
            storage: prefixed("__STORAGE_", upper.as_str()),
            params: prefixed("__PARAMS_", upper.as_str()),
            entry,
            name: match args.name {
                Some(given) => given,
                None => StrLit { value: name.clone(), suffix: "".to_owned() },
            },
            factory: name,
            priority: args.priority,
            stack_size: args.stack_size,
            time_slice: args.time_slice,
            inputs,
        }
    }

    /// Plan the expansion of a task attribute with the arguments `attr` on the
    /// function `item`, or return the error to show.
    pub fn expand(attr: &Vec<Token>, item: &str) -> (r: Result<TaskPlan, PlanError>)
        ensures
            match r {
                Ok(plan) => exists|args: TaskArgs| #[trigger]
                    TaskArgs::parsed(Token::views(attr@), Ok(args)) && (
                    crate::attribute::tokens::parsed_fn(item@) matches Ok((name, inputs))
                        && plan.is_for(args, name, inputs) && plan.has_ascii_names(name)),
                Err(error) => {
                    ||| exists|e: ArgError| #[trigger]
                        TaskArgs::parsed(Token::views(attr@), Err(e)) && error.shows(e@)
                    ||| exists|args: TaskArgs| #[trigger]
                        TaskArgs::parsed(Token::views(attr@), Ok(args)) && (
                        crate::attribute::tokens::parsed_fn(item@) matches Err(m) && error.message@
                            == m && error.place is Item)
                },
            },
    {
        match TaskArgs::parse(attr) {
            Err(e) => Err(PlanError::of_argument(e)),
            Ok(args) => match parse_signature(item) {
                Err(message) => Err(PlanError { message, place: Place::Item }),
                Ok(sig) => Ok(TaskPlan::new(args, sig)),
            },
        }
    }
}

impl MainPlan {
    /// Plan the expansion of a main attribute with the arguments `args` on a
    /// function with the parameters `inputs`.
    ///
    /// The first parameter is the spawner.
    pub fn new(args: MainArgs, inputs: &Vec<Input>) -> (r: Result<MainPlan, &'static str>)
        ensures
            r is Ok == (inputs@.len() > 0 && !(inputs@[0] is Receiver)),
            r matches Ok(plan) ==> {
                &&& plan.by_reference == (inputs@[0] is Reference)
                &&& plan.cpu_hz@ == args.cpu_hz@
                &&& plan.max_tasks == args.max_tasks
            },
            r matches Err(message) ==> message@ == SPAWNER_REQUIRED@,
    {
        if inputs.len() == 0 {
            return Err(SPAWNER_REQUIRED);
        }
        match inputs[0] {
            Input::Receiver => Err(SPAWNER_REQUIRED),
            Input::Reference => Ok(
                MainPlan { by_reference: true, cpu_hz: args.cpu_hz, max_tasks: args.max_tasks },
            ),
            Input::Value => Ok(
                MainPlan { by_reference: false, cpu_hz: args.cpu_hz, max_tasks: args.max_tasks },
            ),
        }
    }

    /// Plan the expansion of a main attribute with the arguments `attr` on the
    /// function `item`, or return the error to show.
    pub fn expand(attr: &Vec<Token>, item: &str) -> (r: Result<MainPlan, PlanError>)
        ensures
            match r {
                Ok(plan) => exists|args: MainArgs| #[trigger]
                    MainArgs::parsed(Token::views(attr@), Ok(args)) && plan.cpu_hz@ == args.cpu_hz@
                        && plan.max_tasks == args.max_tasks && (crate::attribute::tokens::parsed_fn(item@) matches Ok((_, inputs))
                        && inputs.len() > 0 && !(inputs[0] is Receiver) && plan.by_reference == (
                    inputs[0] is Reference)),
                Err(error) => {
                    ||| exists|e: ArgError| #[trigger]
                        MainArgs::parsed(Token::views(attr@), Err(e)) && error.shows(e@)
                    ||| exists|args: MainArgs| #[trigger]
                        MainArgs::parsed(Token::views(attr@), Ok(args))
                            && match crate::attribute::tokens::parsed_fn(item@) {
                            Err(m) => error.message@ == m && error.place is Item,
                            Ok((_, inputs)) => (inputs.len() == 0 || inputs[0] is Receiver)
                                && error.message@ == SPAWNER_REQUIRED@
                                && error.place is FunctionName,
                        }
                },
            },
    {
        match MainArgs::parse(attr) {
            Err(e) => Err(PlanError::of_argument(e)),
            Ok(args) => match parse_signature(item) {
                Err(message) => Err(PlanError { message, place: Place::Item }),
                Ok(sig) => match MainPlan::new(args, &sig.inputs) {
                    Err(message) => Err(
                        PlanError { message: message.to_owned(), place: Place::FunctionName },
                    ),
                    Ok(plan) => Ok(plan),
                },
            },
        }
    }
}

} // verus!
