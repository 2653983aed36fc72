//! Errors that carry a message and a stack of context lines describing what was being done.

use vstd::prelude::*;

use crate::text::{chars_of, string_from_chars};

verus! {

/// Errors that can be annotated with lines of context, outermost first.
pub trait Context: Sized {
    spec fn context_spec(&self) -> Seq<Seq<char>>;

    fn context(&self) -> (res: &Vec<String>)
        ensures
            res@.map_values(|line: String| line@) == self.context_spec(),
    ;

    fn with_context(self, context: String) -> (res: Self)
        ensures
            res.context_spec() == seq![context@] + self.context_spec(),
    ;
}

pub open spec fn lines_view(lines: Seq<String>) -> Seq<Seq<char>> {
    lines.map_values(|line: String| line@)
}

fn prepend_line(lines: Vec<String>, line: String) -> (res: Vec<String>)
    ensures
        lines_view(res@) == seq![line@] + lines_view(lines@),
{
    let mut res = lines;
    res.insert(0, line);
    proof {
        assert(lines_view(res@) =~= seq![line@] + lines_view(lines@));
    }
    res
}

/// The user provided arguments that cannot be interpreted.
#[derive(Debug)]
pub struct ArgumentError {
    context: Vec<String>,
    message: String,
}

/// Something happened that should not be possible.
#[derive(Debug)]
pub struct InternalError {
    context: Vec<String>,
    message: String,
}

/// The operating system reported a problem.
#[derive(Debug)]
pub struct SystemError {
    context: Vec<String>,
    message: String,
}

impl ArgumentError {
    pub closed spec fn message_spec(&self) -> Seq<char> {
        self.message@
    }

    pub fn new(message: String) -> (res: Self)
        ensures
            res.message_spec() == message@,
            res.context_spec() == Seq::<Seq<char>>::empty(),
    {
        let res = ArgumentError { message, context: Vec::new() };
        proof {
            assert(lines_view(res.context@) =~= Seq::<Seq<char>>::empty());
        }
        res
    }

    pub fn message(&self) -> (res: &String)
        ensures
            res@ == self.message_spec(),
    {
        &self.message
    }
}

impl Context for ArgumentError {
    closed spec fn context_spec(&self) -> Seq<Seq<char>> {
        lines_view(self.context@)
    }

    fn context(&self) -> (res: &Vec<String>) {
        &self.context
    }

    fn with_context(self, context: String) -> (res: Self) {
        ArgumentError { message: self.message, context: prepend_line(self.context, context) }
    }
}

impl InternalError {
    pub closed spec fn message_spec(&self) -> Seq<char> {
        self.message@
    }

    pub fn new(message: String) -> (res: Self)
        ensures
            res.message_spec() == message@,
            res.context_spec() == Seq::<Seq<char>>::empty(),
    {
        let res = InternalError { message, context: Vec::new() };
        proof {
            assert(lines_view(res.context@) =~= Seq::<Seq<char>>::empty());
        }
        res
    }

    pub fn message(&self) -> (res: &String)
        ensures
            res@ == self.message_spec(),
    {
        &self.message
    }
}

impl Context for InternalError {
    closed spec fn context_spec(&self) -> Seq<Seq<char>> {
        lines_view(self.context@)
    }

    fn context(&self) -> (res: &Vec<String>) {
        &self.context
    }

    fn with_context(self, context: String) -> (res: Self) {
        InternalError { message: self.message, context: prepend_line(self.context, context) }
    }
}

impl SystemError {
    pub closed spec fn message_spec(&self) -> Seq<char> {
        self.message@
    }

    pub fn new(message: String) -> (res: Self)
        ensures
            res.message_spec() == message@,
            res.context_spec() == Seq::<Seq<char>>::empty(),
    {
        let res = SystemError { message, context: Vec::new() };
        proof {
            assert(lines_view(res.context@) =~= Seq::<Seq<char>>::empty());
        }
        res
    }

    pub fn message(&self) -> (res: &String)
        ensures
            res@ == self.message_spec(),
    {
        &self.message
    }
}

impl Context for SystemError {
    closed spec fn context_spec(&self) -> Seq<Seq<char>> {
        lines_view(self.context@)
    }

    fn context(&self) -> (res: &Vec<String>) {
        &self.context
    }

    fn with_context(self, context: String) -> (res: Self) {
        SystemError { message: self.message, context: prepend_line(self.context, context) }
    }
}

/// Any of the errors that can make the program stop.
#[derive(Debug)]
pub enum RuntimeError {
    ArgumentError(ArgumentError),
    InternalError(InternalError),
    SystemError(SystemError),
}

impl Context for RuntimeError {
    open spec fn context_spec(&self) -> Seq<Seq<char>> {
        match self {
            RuntimeError::ArgumentError(error) => error.context_spec(),
            RuntimeError::InternalError(error) => error.context_spec(),
            RuntimeError::SystemError(error) => error.context_spec(),
        }
    }

    fn context(&self) -> (res: &Vec<String>) {
        match self {
            RuntimeError::ArgumentError(error) => error.context(),
            RuntimeError::InternalError(error) => error.context(),
            RuntimeError::SystemError(error) => error.context(),
        }
    }

    fn with_context(self, context: String) -> (res: Self) {
        match self {
            RuntimeError::ArgumentError(error) => RuntimeError::ArgumentError(error.with_context(context)),
            RuntimeError::InternalError(error) => RuntimeError::InternalError(error.with_context(context)),
            RuntimeError::SystemError(error) => RuntimeError::SystemError(error.with_context(context)),
        }
    }
}

impl RuntimeError {
    pub open spec fn kind_prefix(&self) -> Seq<char> {
        match self {
            RuntimeError::ArgumentError(_) => "Invalid argument: "@,
            RuntimeError::InternalError(_) => "Internal error: "@,
            RuntimeError::SystemError(_) => "System error: "@,
        }
    }

    pub open spec fn message_spec(&self) -> Seq<char> {
        match self {
            RuntimeError::ArgumentError(error) => error.message_spec(),
            RuntimeError::InternalError(error) => error.message_spec(),
            RuntimeError::SystemError(error) => error.message_spec(),
        }
    }

    /// The text that is shown to the user: every line of context on its own line, each indented
    /// one step further than the previous, followed by the message.
    pub fn to_display_string(&self) -> (res: String)
        ensures
            res@ == spec_format_with_context(
                self.context_spec(),
                self.kind_prefix() + spec_first_letter_to_lowercase(self.message_spec()),
            ),
    {
        let (prefix, message) = match self {
            RuntimeError::ArgumentError(error) => ("Invalid argument: ", error.message()),
            RuntimeError::InternalError(error) => ("Internal error: ", error.message()),
            RuntimeError::SystemError(error) => ("System error: ", error.message()),
        };
        let lowered = first_letter_to_lowercase(message.clone());
        let prefix_chars = chars_of(prefix);
        let message_chars = chars_of(lowered.as_str());
        let full = crate::text::concat_chars(prefix_chars.as_slice(), message_chars.as_slice());
        format_error_with_context(self.context(), string_from_chars(full.as_slice()))
    }
}

impl From<ArgumentError> for RuntimeError {
    fn from(error: ArgumentError) -> (res: RuntimeError) {
        RuntimeError::ArgumentError(error)
    }
}

impl vstd::std_specs::convert::FromSpecImpl<ArgumentError> for RuntimeError {
    open spec fn obeys_from_spec() -> bool {
        true
    }

    open spec fn from_spec(error: ArgumentError) -> RuntimeError {
        RuntimeError::ArgumentError(error)
    }
}

impl From<InternalError> for RuntimeError {
    fn from(error: InternalError) -> (res: RuntimeError) {
        RuntimeError::InternalError(error)
    }
}

impl vstd::std_specs::convert::FromSpecImpl<InternalError> for RuntimeError {
    open spec fn obeys_from_spec() -> bool {
        true
    }

    open spec fn from_spec(error: InternalError) -> RuntimeError {
        RuntimeError::InternalError(error)
    }
}

impl From<SystemError> for RuntimeError {
    fn from(error: SystemError) -> (res: RuntimeError) {
        RuntimeError::SystemError(error)
    }
}

impl vstd::std_specs::convert::FromSpecImpl<SystemError> for RuntimeError {
    open spec fn obeys_from_spec() -> bool {
        true
    }

    open spec fn from_spec(error: SystemError) -> RuntimeError {
        RuntimeError::SystemError(error)
    }
}

/// A marker that some operation was interrupted.
pub struct InterruptError {}

impl InterruptError {
    pub fn new() -> (res: InterruptError) {
        InterruptError {}
    }
}

/// Four spaces for every level of indentation.
pub open spec fn indentation(level: nat) -> Seq<char>
    decreases level,
{
    if level == 0 {
        Seq::empty()
    } else {
        indentation((level - 1) as nat) + "    "@
    }
}

/// Lines from the given index on, each indented by its position in the full list.
pub open spec fn format_lines_from(lines: Seq<Seq<char>>, from: nat) -> Seq<char>
    decreases lines.len() - from,
{
    if from >= lines.len() {
        Seq::empty()
    } else {
        indentation(from) + lines[from as int] + "\n"@ + format_lines_from(lines, from + 1)
    }
}

/// The context lines followed by the message, each on its own line and indented by its position.
pub open spec fn spec_format_with_context(context: Seq<Seq<char>>, message: Seq<char>) -> Seq<char> {
    format_lines_from(context.push(message), 0)
}

proof fn lemma_format_lines_prefix(lines: Seq<Seq<char>>, k: nat)
    requires
        k <= lines.len(),
    ensures
        format_lines_from(lines, 0) == format_lines_before(lines, k) + format_lines_from(lines, k),
    decreases k,
{
    if k > 0 {
        lemma_format_lines_prefix(lines, (k - 1) as nat);
        let a = format_lines_before(lines, (k - 1) as nat);
        let b = indentation((k - 1) as nat) + lines[k - 1] + "\n"@;
        let c = format_lines_from(lines, k);
        assert(format_lines_from(lines, (k - 1) as nat) == b + c);
        assert(a + (b + c) =~= (a + b) + c);
    } else {
        assert(format_lines_before(lines, 0) + format_lines_from(lines, 0) =~= format_lines_from(lines, 0));
    }
}

/// The formatted lines before the given index.
pub open spec fn format_lines_before(lines: Seq<Seq<char>>, k: nat) -> Seq<char>
    decreases k,
{
    if k == 0 || k > lines.len() {
        Seq::empty()
    } else {
        format_lines_before(lines, (k - 1) as nat) + indentation((k - 1) as nat) + lines[k - 1] + "\n"@
    }
}

/// Appends one indented line to `out`.
fn push_indented_line(out: Vec<char>, level: usize, line: &String) -> (res: Vec<char>)
    ensures
        res@ == out@ + indentation(level as nat) + line@ + "\n"@,
{
    let four_spaces = chars_of("    ");
    let newline = chars_of("\n");
    let mut out = out;
    let ghost start = out@;
    let mut k: usize = 0;
    while k < level
        invariant
            k <= level,
            four_spaces@ == "    "@,
            out@ == start + indentation(k as nat),
        decreases level - k,
    {
        out = crate::text::concat_chars(out.as_slice(), four_spaces.as_slice());
        k += 1;
        proof {
            assert(out@ =~= start + indentation(k as nat));
        }
    }
    let line_chars = chars_of(line.as_str());
    out = crate::text::concat_chars(out.as_slice(), line_chars.as_slice());
    out = crate::text::concat_chars(out.as_slice(), newline.as_slice());
    out
}

/// Formats an error message with its context lines, each line indented one step further.
pub fn format_error_with_context(err_context: &Vec<String>, err_msg: String) -> (res: String)
    ensures
        res@ == spec_format_with_context(lines_view(err_context@), err_msg@),
{
    let ghost lines = lines_view(err_context@).push(err_msg@);
    let n = err_context.len();
    let mut out: Vec<char> = Vec::new();
    let mut indent: usize = 0;
    while indent < n
        invariant
            n == err_context@.len(),
            lines == lines_view(err_context@).push(err_msg@),
            indent <= n,
            out@ == format_lines_before(lines, indent as nat),
        decreases n - indent,
    {
        proof {
            assert(err_context@[indent as int]@ == lines[indent as int]);
        }
        out = push_indented_line(out, indent, &err_context[indent]);
        indent += 1;
    }
    out = push_indented_line(out, n, &err_msg);
    proof {
        assert(lines[n as int] == err_msg@);
        assert(out@ == format_lines_before(lines, (n + 1) as nat));
        lemma_format_lines_prefix(lines, (n + 1) as nat);
        assert(format_lines_from(lines, (n + 1) as nat) == Seq::<char>::empty());
        assert(out@ + Seq::<char>::empty() =~= out@);
    }
    string_from_chars(out.as_slice())
}

/// Lower-cases the first character if it is an upper-case ASCII letter.
pub open spec fn spec_first_letter_to_lowercase(s: Seq<char>) -> Seq<char> {
    if s.len() > 0 && 'A' <= s[0] <= 'Z' {
        s.update(0, (((s[0] as u32) + 32) as u8) as char)
    } else {
        s
    }
}

pub fn first_letter_to_lowercase(string: String) -> (res: String)
    ensures
        res@ == spec_first_letter_to_lowercase(string@),
{
    let mut chars = chars_of(string.as_str());
    if chars.len() > 0 && 'A' <= chars[0] && chars[0] <= 'Z' {
        let lowered = ((chars[0] as u32) + 32) as u8 as char;
        chars.set(0, lowered);
        proof {
            assert(lowered == (((string@[0] as u32) + 32) as u8) as char);
        }
    }
    string_from_chars(chars.as_slice())
}

} // verus!
