//! Error types: compilation errors (bad directive programs) and resolution
//! errors raised while a document is processed.  Every error is terminal for
//! the run; each carries what is needed for a descriptive message.

use vstd::prelude::*;

verus! {

/// An error raised while compiling a directive sequence into instructions.
#[derive(Debug, Clone, PartialEq, Eq)]
pub enum CompileError {
    /// A directive name outside the known vocabulary.
    UnknownDirective(String),
    /// An action directive arrived before any event scope was opened.
    ActionBeforeScope(String),
    /// A filter name in an attribute specifier outside the known set.
    UnknownFilter(String),
    /// A directive arrived with fewer argument values than it needs.
    MissingArgument(String),
}

/// The mathematical image of a [`CompileError`].
pub enum CompileErrorV {
    UnknownDirective(Seq<char>),
    ActionBeforeScope(Seq<char>),
    UnknownFilter(Seq<char>),
    MissingArgument(Seq<char>),
}

impl View for CompileError {
    type V = CompileErrorV;

    open spec fn view(&self) -> CompileErrorV {
        match self {
            CompileError::UnknownDirective(s) => CompileErrorV::UnknownDirective(s@),
            CompileError::ActionBeforeScope(s) => CompileErrorV::ActionBeforeScope(s@),
            CompileError::UnknownFilter(s) => CompileErrorV::UnknownFilter(s@),
            CompileError::MissingArgument(s) => CompileErrorV::MissingArgument(s@),
        }
    }
}

/// The flag spelling under which a directive is announced in error messages.
pub open spec fn spec_flag_spelling(directive: Seq<char>) -> Seq<char> {
    if directive == "raw"@ {
        "-o"@
    } else if directive == "newline"@ {
        "--nl"@
    } else if directive == "tab"@ {
        "--tab"@
    } else if directive == "value"@ {
        "-v"@
    } else if directive == "value_with_default"@ {
        "-V"@
    } else {
        directive
    }
}

/// The message text of a [`CompileError`].
pub open spec fn spec_compile_error_message(e: CompileErrorV) -> Seq<char> {
    match e {
        CompileErrorV::UnknownDirective(d) => "unknown arg: "@ + d,
        CompileErrorV::ActionBeforeScope(d) => "Cannot use "@ + spec_flag_spelling(d)
            + " before you have done a -s/-e"@,
        CompileErrorV::UnknownFilter(n) => "unknown filter: "@ + n,
        CompileErrorV::MissingArgument(d) => "missing value for "@ + spec_flag_spelling(d),
    }
}

/// Maps a directive name to the flag spelling used in messages.
fn flag_spelling(directive: &String) -> (r: String)
    ensures
        r@ == spec_flag_spelling(directive@),
{
    if crate::text::str_eq(directive.as_str(), "raw") {
        "-o".to_owned()
    } else if crate::text::str_eq(directive.as_str(), "newline") {
        "--nl".to_owned()
    } else if crate::text::str_eq(directive.as_str(), "tab") {
        "--tab".to_owned()
    } else if crate::text::str_eq(directive.as_str(), "value") {
        "-v".to_owned()
    } else if crate::text::str_eq(directive.as_str(), "value_with_default") {
        "-V".to_owned()
    } else {
        directive.clone()
    }
}

impl CompileError {
    /// A descriptive message naming the offending directive or filter.
    pub fn message(&self) -> (r: String)
        ensures
            r@ == spec_compile_error_message(self@),
    {
        match self {
            CompileError::UnknownDirective(d) => {
                let mut out = "unknown arg: ".to_owned();
                out.append(d.as_str());
                out
            },
            CompileError::ActionBeforeScope(d) => {
                let mut out = "Cannot use ".to_owned();
                let flag = flag_spelling(d);
                out.append(flag.as_str());
                out.append(" before you have done a -s/-e");
                out
            },
            CompileError::UnknownFilter(n) => {
                let mut out = "unknown filter: ".to_owned();
                out.append(n.as_str());
                out
            },
            CompileError::MissingArgument(d) => {
                let mut out = "missing value for ".to_owned();
                let flag = flag_spelling(d);
                out.append(flag.as_str());
                out
            },
        }
    }
}

/// An error raised while executing instructions over a document.
#[derive(Debug, Clone, PartialEq, Eq)]
pub enum ExecError {
    /// A required attribute was absent from the element it was looked up on.
    MissingAttribute { attr: String, tag: String, present: Vec<String> },
    /// An ancestor lookup asked for a level above the number of open
    /// ancestors.
    AncestorTooDeep { level: usize, depth: usize },
}

/// The mathematical image of an [`ExecError`].
pub enum ExecErrorV {
    MissingAttribute { attr: Seq<char>, tag: Seq<char>, present: Seq<Seq<char>> },
    AncestorTooDeep { level: int, depth: int },
}

impl View for ExecError {
    type V = ExecErrorV;

    open spec fn view(&self) -> ExecErrorV {
        match self {
            ExecError::MissingAttribute { attr, tag, present } => ExecErrorV::MissingAttribute {
                attr: attr@,
                tag: tag@,
                present: present.deep_view(),
            },
            ExecError::AncestorTooDeep { level, depth } => ExecErrorV::AncestorTooDeep {
                level: *level as int,
                depth: *depth as int,
            },
        }
    }
}

/// The pieces joined with commas, in order.
pub open spec fn spec_join_comma(parts: Seq<Seq<char>>) -> Seq<char>
    decreases parts.len(),
{
    if parts.len() == 0 {
        Seq::empty()
    } else if parts.len() == 1 {
        parts[0]
    } else {
        parts[0] + seq![','] + spec_join_comma(parts.drop_first())
    }
}

/// The character for one decimal digit.
pub open spec fn digit_char(d: int) -> char {
    if d == 0 {
        '0'
    } else if d == 1 {
        '1'
    } else if d == 2 {
        '2'
    } else if d == 3 {
        '3'
    } else if d == 4 {
        '4'
    } else if d == 5 {
        '5'
    } else if d == 6 {
        '6'
    } else if d == 7 {
        '7'
    } else if d == 8 {
        '8'
    } else {
        '9'
    }
}

/// The decimal rendering of a nonnegative number, most significant digit
/// first.
pub open spec fn spec_decimal(n: int) -> Seq<char>
    decreases n,
{
    if n < 10 {
        seq![digit_char(n)]
    } else {
        spec_decimal(n / 10).push(digit_char(n % 10))
    }
}

/// One decimal digit as text.
fn digit_str(d: usize) -> (r: &'static str)
    requires
        d < 10,
    ensures
        r@ == seq![digit_char(d as int)],
{
    let r: &'static str = match d {
        0 => "0",
        1 => "1",
        2 => "2",
        3 => "3",
        4 => "4",
        5 => "5",
        6 => "6",
        7 => "7",
        8 => "8",
        _ => "9",
    };
    proof {
        reveal_strlit("0");
        reveal_strlit("1");
        reveal_strlit("2");
        reveal_strlit("3");
        reveal_strlit("4");
        reveal_strlit("5");
        reveal_strlit("6");
        reveal_strlit("7");
        reveal_strlit("8");
        reveal_strlit("9");
        assert(r@ =~= seq![digit_char(d as int)]);
    }
    r
}

/// Renders a number in decimal.
fn decimal_string(n: usize) -> (r: String)
    ensures
        r@ == spec_decimal(n as int),
    decreases n,
{
    if n < 10 {
        digit_str(n).to_owned()
    } else {
        let mut r = decimal_string(n / 10);
        r.append(digit_str(n % 10));
        r
    }
}

/// The message text of an [`ExecError`].
pub open spec fn spec_exec_error_message(e: ExecErrorV) -> Seq<char> {
    match e {
        ExecErrorV::MissingAttribute { attr, tag, present } => "No attribute "@ + attr
            + " found for element "@ + tag + ". Attributes: "@ + spec_join_comma(present),
        ExecErrorV::AncestorTooDeep { level, depth } => "ancestor level "@ + spec_decimal(level)
            + " exceeds the open element depth "@ + spec_decimal(depth),
    }
}

/// Joins strings with commas, in order.
fn join_comma(parts: &Vec<String>) -> (r: String)
    ensures
        r@ == spec_join_comma(parts.deep_view()),
{
    let ghost all = parts.deep_view();
    let n = parts.len();
    let mut out = String::new();
    let mut i: usize = 0;
    proof {
        assert(all.len() == n);
        assert(all.skip(0) =~= all);
    }
    while i < n
        invariant
            all == parts.deep_view(),
            all.len() == n,
            n == parts.len(),
            i <= n,
            i == 0 ==> out@ == Seq::<char>::empty(),
            0 < i < n ==> spec_join_comma(all) == out@ + seq![','] + spec_join_comma(
                all.skip(i as int),
            ),
            i == n && n > 0 ==> spec_join_comma(all) == out@,
        decreases n - i,
    {
        proof {
            assert(all.skip(i as int)[0] == all[i as int]);
            assert(all.skip(i as int).drop_first() =~= all.skip(i + 1));
            assert(parts[i as int].deep_view() == all[i as int]);
        }
        if i > 0 {
            out.append(",");
            proof {
                reveal_strlit(",");
                assert(","@ =~= seq![',']);
            }
        }
        out.append(parts[i].as_str());
        i = i + 1;
    }
    out
}

impl ExecError {
    /// A descriptive message; for a missing attribute it names the attribute,
    /// the element, and the attributes actually present.
    pub fn message(&self) -> (r: String)
        ensures
            r@ == spec_exec_error_message(self@),
    {
        match self {
            ExecError::MissingAttribute { attr, tag, present } => {
                let mut out = "No attribute ".to_owned();
                out.append(attr.as_str());
                out.append(" found for element ");
                out.append(tag.as_str());
                out.append(". Attributes: ");
                let joined = join_comma(present);
                out.append(joined.as_str());
                out
            },
            ExecError::AncestorTooDeep { level, depth } => {
                let mut out = "ancestor level ".to_owned();
                let rendered_level = decimal_string(*level);
                out.append(rendered_level.as_str());
                out.append(" exceeds the open element depth ");
                let rendered_depth = decimal_string(*depth);
                out.append(rendered_depth.as_str());
                out
            },
        }
    }
}

} // verus!
