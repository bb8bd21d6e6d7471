//! The parser stage: the check of source text before it is handed to the
//! `qasm` crate, the call, and the conversion of what comes back into the
//! library's own syntax tree.
use crate::ast::node_view;
use crate::ast::node_views;
use crate::ast::operand_views;
use crate::ast::Node;
use crate::ast::NodeView;
use crate::ast::Operand;
use crate::ast::OperandView;
use crate::error::LoweringError;
use crate::text::chars_of;
use crate::text::texts;
use vstd::prelude::*;

verus! {

/// Whether `char::is_whitespace` holds of the character.
pub uninterp spec fn is_whitespace(c: char) -> bool;

/// Whether `char::is_alphabetic` holds of the character.
pub uninterp spec fn is_alphabetic(c: char) -> bool;

/// Whether `char::is_numeric` holds of the character.
pub uninterp spec fn is_numeric(c: char) -> bool;

/// Wraps `char::is_whitespace`, which says whether the character has the
/// Unicode property `White_Space`.
#[verifier::external_body]
fn char_is_whitespace(c: char) -> (r: bool)
    ensures
        r == is_whitespace(c),
{
    c.is_whitespace()
}

/// Wraps `char::is_alphabetic`, which says whether the character has the
/// Unicode property `Alphabetic`.
#[verifier::external_body]
fn char_is_alphabetic(c: char) -> (r: bool)
    ensures
        r == is_alphabetic(c),
{
    c.is_alphabetic()
}

/// Wraps `char::is_numeric`, which says whether the character is in one of
/// the general categories for numbers of Unicode.
#[verifier::external_body]
fn char_is_numeric(c: char) -> (r: bool)
    ensures
        r == is_numeric(c),
{
    c.is_numeric()
}

/// Whether the character is a token by itself.
pub open spec fn is_punctuation(c: char) -> bool {
    c == '+' || c == '-' || c == '*' || c == '/' || c == '^' || c == ';' || c == ',' || c == '('
        || c == '[' || c == '{' || c == ')' || c == ']' || c == '}'
}

/// Whether the character can start a name.
pub open spec fn is_letter(c: char) -> bool {
    is_alphabetic(c) || c == '_'
}

/// Whether the character can stand in a name.
pub open spec fn is_word_char(c: char) -> bool {
    is_alphabetic(c) || is_numeric(c) || c == '_'
}

/// Whether the character is an ASCII decimal digit.
pub open spec fn is_digit(c: char) -> bool {
    '0' <= c && c <= '9'
}

/// The number of characters of a name that stand in a row from position `i`
/// on.
pub open spec fn word_run(s: Seq<char>, i: int) -> nat
    decreases s.len() - i,
{
    if 0 <= i < s.len() && is_word_char(s[i]) {
        1 + word_run(s, i + 1)
    } else {
        0
    }
}

/// The number of characters of a number that stand in a row from position
/// `i` on: numeric characters and points.
pub open spec fn number_run(s: Seq<char>, i: int) -> nat
    decreases s.len() - i,
{
    if 0 <= i < s.len() && (is_numeric(s[i]) || s[i] == '.') {
        1 + number_run(s, i + 1)
    } else {
        0
    }
}

/// How many of the characters `s[from..to]` are equal to `c`.
pub open spec fn count_of(s: Seq<char>, c: char, from: int, to: int) -> nat
    decreases to - from,
{
    if from >= to {
        0
    } else if s[to - 1] == c {
        1 + count_of(s, c, from, to - 1)
    } else {
        count_of(s, c, from, to - 1)
    }
}

/// The value of the digits `s[from..to]` read as a decimal number (a
/// character that is no ASCII digit counts as zero).
pub open spec fn decimal(s: Seq<char>, from: int, to: int) -> nat
    decreases to - from,
{
    if from >= to {
        0
    } else {
        decimal(s, from, to - 1) * 10 + (if is_digit(s[to - 1]) {
            (s[to - 1] as u32 - '0' as u32) as nat
        } else {
            0
        })
    }
}

/// Whether `s[from..to]` holds ASCII digits and points only.
pub open spec fn is_plain(s: Seq<char>, from: int, to: int) -> bool {
    forall|k: int| from <= k < to ==> is_digit(#[trigger] s[k]) || s[k] == '.'
}

/// Whether the number written as `s[from..to]` can be read: it is written
/// in ASCII digits, with one point at most, and without a point it fits a
/// signed 32-bit integer.
pub open spec fn number_fits(s: Seq<char>, from: int, to: int) -> bool {
    &&& is_plain(s, from, to)
    &&& if count_of(s, '.', from, to) == 0 {
        decimal(s, from, to) <= i32::MAX
    } else {
        count_of(s, '.', from, to) == 1
    }
}

/// Whether the text from position `i` on, where a token starts, splits into
/// tokens without a fault: every `=` is followed by a second one, and every
/// number can be read. Names may hold any letter, and any white space may
/// stand between tokens.
pub open spec fn lexes(s: Seq<char>, i: int) -> bool
    decreases s.len() - i,
    via lexes_terminates
{
    if i < 0 || i >= s.len() {
        true
    } else if is_whitespace(s[i]) {
        lexes(s, i + 1)
    } else if s[i] == '=' {
        i + 1 < s.len() && s[i + 1] == '=' && lexes(s, i + 2)
    } else if s[i] == '-' && i + 1 < s.len() && s[i + 1] == '>' {
        lexes(s, i + 2)
    } else if is_punctuation(s[i]) {
        lexes(s, i + 1)
    } else if is_letter(s[i]) {
        lexes(s, i + 1 + word_run(s, i + 1))
    } else if is_numeric(s[i]) {
        let end = i + 1 + number_run(s, i + 1);
        number_fits(s, i, end) && lexes(s, end)
    } else {
        lexes(s, i + 1)
    }
}

#[via_fn]
proof fn lexes_terminates(s: Seq<char>, i: int) {
    if 0 <= i < s.len() {
        lemma_word_run(s, i + 1);
        lemma_number_run(s, i + 1);
    }
}

/// A name ends within the text.
proof fn lemma_word_run(s: Seq<char>, i: int)
    requires
        0 <= i <= s.len(),
    ensures
        i + word_run(s, i) <= s.len(),
    decreases s.len() - i,
{
    if i < s.len() && is_word_char(s[i]) {
        lemma_word_run(s, i + 1);
    }
}

/// A number ends within the text.
proof fn lemma_number_run(s: Seq<char>, i: int)
    requires
        0 <= i <= s.len(),
    ensures
        i + number_run(s, i) <= s.len(),
    decreases s.len() - i,
{
    if i < s.len() && (is_numeric(s[i]) || s[i] == '.') {
        lemma_number_run(s, i + 1);
    }
}

/// The number of white-space characters at the end of the first `n`
/// characters.
pub open spec fn trailing_space(s: Seq<char>, n: int) -> nat
    decreases n,
{
    if 0 < n <= s.len() && is_whitespace(s[n - 1]) {
        1 + trailing_space(s, n - 1)
    } else {
        0
    }
}

/// Whether the text ends, white space aside, in some character other than a
/// closing parenthesis.
pub open spec fn ends_properly(s: Seq<char>) -> bool {
    let n = s.len() - trailing_space(s, s.len() as int);
    n > 0 && s[n - 1] != ')'
}

/// Whether source text may be handed to the parser.
///
/// The text splits into tokens without a fault; its opening and closing
/// braces are equal in number; and it holds a token, the last of which is no
/// closing parenthesis. Text that fails this is not a well-formed program.
pub open spec fn parsable(s: Seq<char>) -> bool {
    &&& lexes(s, 0)
    &&& count_of(s, '{', 0, s.len() as int) == count_of(s, '}', 0, s.len() as int)
    &&& ends_properly(s)
}

/// Counts the occurrences of a character: see [`count_of`].
pub fn count_char(s: &Vec<char>, c: char) -> (n: usize)
    ensures
        n == count_of(s@, c, 0, s.len() as int),
{
    let mut n: usize = 0;
    let mut i: usize = 0;
    while i < s.len()
        invariant
            i <= s.len(),
            n == count_of(s@, c, 0, i as int),
            n <= i,
        decreases s.len() - i,
    {
        if s[i] == c {
            n += 1;
        }
        i += 1;
    }
    n
}

/// Decides [`ends_properly`].
pub fn ends_well(s: &Vec<char>) -> (r: bool)
    ensures
        r == ends_properly(s@),
{
    let mut n: usize = s.len();
    while n > 0 && char_is_whitespace(s[n - 1])
        invariant
            n <= s.len(),
            s.len() - trailing_space(s@, s.len() as int) == n - trailing_space(s@, n as int),
        decreases n,
    {
        n -= 1;
    }
    n > 0 && s[n - 1] != ')'
}

/// Decides [`is_punctuation`].
fn char_is_punctuation(c: char) -> (r: bool)
    ensures
        r == is_punctuation(c),
{
    c == '+' || c == '-' || c == '*' || c == '/' || c == '^' || c == ';' || c == ',' || c == '('
        || c == '[' || c == '{' || c == ')' || c == ']' || c == '}'
}

/// Decides [`is_digit`].
fn char_is_digit(c: char) -> (r: bool)
    ensures
        r == is_digit(c),
{
    '0' <= c && c <= '9'
}

/// Reads the number that starts at position `i`, where a numeric character
/// stands. Hands out where the number ends and whether it can be read: see
/// [`number_fits`].
fn scan_number(s: &Vec<char>, i: usize) -> (r: (usize, bool))
    requires
        i < s.len(),
        is_numeric(s@[i as int]),
    ensures
        r.0 == i + 1 + number_run(s@, i + 1),
        r.0 <= s.len(),
        r.1 == number_fits(s@, i as int, r.0 as int),
{
    let mut j: usize = i;
    let mut points: usize = 0;
    let mut value: u64 = 0;
    let mut plain = true;
    while j < s.len() && (char_is_numeric(s[j]) || s[j] == '.')
        invariant
            i <= j <= s.len(),
            is_numeric(s@[i as int]),
            i + 1 + number_run(s@, i + 1) == (if j == i {
                i + 1 + number_run(s@, i + 1)
            } else {
                j + number_run(s@, j as int)
            }),
            plain == is_plain(s@, i as int, j as int),
            points == count_of(s@, '.', i as int, j as int),
            points <= j - i,
            value <= 2147483648,
            decimal(s@, i as int, j as int) <= 2147483647 ==> value == decimal(
                s@,
                i as int,
                j as int,
            ),
            decimal(s@, i as int, j as int) > 2147483647 ==> value == 2147483648,
        decreases s.len() - j,
    {
        let c = s[j];
        let digit: u64 = if char_is_digit(c) {
            (c as u32 - '0' as u32) as u64
        } else {
            0
        };
        if c == '.' {
            points += 1;
        } else if !char_is_digit(c) {
            plain = false;
        }
        value = value * 10 + digit;
        if value > 2147483648 {
            value = 2147483648;
        }
        j += 1;
    }
    (j, plain && if points == 0 {
        value <= 2147483647
    } else {
        points == 1
    })
}

/// Decides [`lexes`] for a whole text.
pub fn lexes_well(s: &Vec<char>) -> (r: bool)
    ensures
        r == lexes(s@, 0),
{
    let mut i: usize = 0;
    while i < s.len()
        invariant
            i <= s.len(),
            lexes(s@, 0) == lexes(s@, i as int),
        decreases s.len() - i,
    {
        let c = s[i];
        if char_is_whitespace(c) {
            i += 1;
        } else if c == '=' {
            if i + 1 < s.len() && s[i + 1] == '=' {
                i += 2;
            } else {
                return false;
            }
        } else if c == '-' && i + 1 < s.len() && s[i + 1] == '>' {
            i += 2;
        } else if char_is_punctuation(c) {
            i += 1;
        } else if char_is_alphabetic(c) || c == '_' {
            let mut j: usize = i + 1;
            while j < s.len() && (char_is_alphabetic(s[j]) || char_is_numeric(s[j]) || s[j] == '_')
                invariant
                    i + 1 <= j <= s.len(),
                    i + 1 + word_run(s@, i + 1) == j + word_run(s@, j as int),
                decreases s.len() - j,
            {
                j += 1;
            }
            i = j;
        } else if char_is_numeric(c) {
            let (end, fits) = scan_number(s, i);
            if !fits {
                return false;
            }
            i = end;
        } else {
            i += 1;
        }
    }
    true
}

/// Decides whether source text may be handed to the parser: see
/// [`parsable`].
pub fn is_parsable(s: &Vec<char>) -> (r: bool)
    ensures
        r == parsable(s@),
{
    lexes_well(s) && count_char(s, '{') == count_char(s, '}') && ends_well(s)
}

/// A statement as the `qasm` crate hands it out.
#[verifier::external_type_specification]
#[verifier::external_body]
pub struct ExAstNode(qasm::AstNode);

/// An operand as the `qasm` crate hands it out.
#[verifier::external_type_specification]
#[verifier::external_body]
pub struct ExArgument(qasm::Argument);

/// The reason for which the `qasm` crate rejects a program.
#[verifier::external_type_specification]
#[verifier::external_body]
pub struct ExError(qasm::Error);

/// What a `qasm::Argument` holds: its variant, its name, and its index where
/// it has one.
pub uninterp spec fn operand_model(arg: qasm::Argument) -> OperandView;

/// What a `qasm::AstNode` holds: its variant and its fields, the operands
/// and statements among them by what they hold in turn.
pub uninterp spec fn node_model(node: qasm::AstNode) -> NodeView;

/// What the `qasm` crate makes of a source text: the statements of the
/// program by what they hold, or nothing where it rejects the text.
pub uninterp spec fn parsed_program(source: Seq<char>) -> Option<Seq<NodeView>>;

/// What a list of operands of the `qasm` crate holds.
pub open spec fn operand_models(args: Seq<qasm::Argument>) -> Seq<OperandView> {
    Seq::new(args.len(), |i: int| operand_model(args[i]))
}

/// What a list of statements of the `qasm` crate holds.
pub open spec fn node_models(nodes: Seq<qasm::AstNode>) -> Seq<NodeView> {
    Seq::new(nodes.len(), |i: int| node_model(nodes[i]))
}

/// Splits the text into tokens with `qasm::lex` and parses them with
/// `qasm::parse`.
///
/// The two functions compute from the text alone, so what comes back is
/// [`parsed_program`] of the text. The precondition keeps away the texts on
/// which they stop the program: the tokenizer on a single `=` and on a number
/// that it cannot read (the numbers that [`number_fits`] excludes); the
/// parser where no token is left at the start,
/// behind the opening brace or a statement of a gate body (which takes one
/// opening brace more than there are closing ones), or behind the
/// parenthesis that closes a condition. The parser descends once for each
/// item of a list and each statement of a gate body; nothing here bounds the
/// depth of that descent.
#[verifier::external_body]
fn parse_text(source: &str) -> (r: Result<Vec<qasm::AstNode>, qasm::Error>)
    requires
        parsable(source@),
    ensures
        match r {
            Ok(ast) => parsed_program(source@) == Some(node_models(ast@)),
            Err(_) => parsed_program(source@) is None,
        },
{
    let mut tokens = qasm::lex(source);
    qasm::parse(&mut tokens)
}

/// The name and size of a `qasm::AstNode::QReg`; nothing for another variant.
#[verifier::external_body]
fn as_qreg(node: &qasm::AstNode) -> (r: Option<(String, i32)>)
    ensures
        match r {
            Some((name, size)) => node_model(*node) == NodeView::QReg(name@, size as int),
            None => !(node_model(*node) is QReg),
        },
{
    match node {
        qasm::AstNode::QReg(name, size) => Some((name.clone(), *size)),
        _ => None,
    }
}

/// The name and size of a `qasm::AstNode::CReg`; nothing for another variant.
#[verifier::external_body]
fn as_creg(node: &qasm::AstNode) -> (r: Option<(String, i32)>)
    ensures
        match r {
            Some((name, size)) => node_model(*node) == NodeView::CReg(name@, size as int),
            None => !(node_model(*node) is CReg),
        },
{
    match node {
        qasm::AstNode::CReg(name, size) => Some((name.clone(), *size)),
        _ => None,
    }
}

/// The operand of a `qasm::AstNode::Barrier`; nothing for another variant.
#[verifier::external_body]
fn as_barrier(node: &qasm::AstNode) -> (r: Option<qasm::Argument>)
    ensures
        match r {
            Some(arg) => node_model(*node) == NodeView::Barrier(operand_model(arg)),
            None => !(node_model(*node) is Barrier),
        },
{
    match node {
        qasm::AstNode::Barrier(arg) => Some(arg.clone()),
        _ => None,
    }
}

/// The operand of a `qasm::AstNode::Reset`; nothing for another variant.
#[verifier::external_body]
fn as_reset(node: &qasm::AstNode) -> (r: Option<qasm::Argument>)
    ensures
        match r {
            Some(arg) => node_model(*node) == NodeView::Reset(operand_model(arg)),
            None => !(node_model(*node) is Reset),
        },
{
    match node {
        qasm::AstNode::Reset(arg) => Some(arg.clone()),
        _ => None,
    }
}

/// The two operands of a `qasm::AstNode::Measure`; nothing for another
/// variant.
#[verifier::external_body]
fn as_measure(node: &qasm::AstNode) -> (r: Option<(qasm::Argument, qasm::Argument)>)
    ensures
        match r {
            Some((source, target)) => node_model(*node) == NodeView::Measure(
                operand_model(source),
                operand_model(target),
            ),
            None => !(node_model(*node) is Measure),
        },
{
    match node {
        qasm::AstNode::Measure(source, target) => Some((source.clone(), target.clone())),
        _ => None,
    }
}

/// The name, operands and parameters of a `qasm::AstNode::ApplyGate`; nothing
/// for another variant.
#[verifier::external_body]
fn as_application(node: &qasm::AstNode) -> (r: Option<(String, Vec<qasm::Argument>, Vec<String>)>)
    ensures
        match r {
            Some((name, args, params)) => node_model(*node) == NodeView::ApplyGate(
                name@,
                operand_models(args@),
                texts(params@),
            ),
            None => !(node_model(*node) is ApplyGate),
        },
{
    match node {
        qasm::AstNode::ApplyGate(name, args, params) => Some(
            (name.clone(), args.clone(), params.clone()),
        ),
        _ => None,
    }
}

/// The name, operands and parameters of a `qasm::AstNode::Opaque`; nothing
/// for another variant.
#[verifier::external_body]
fn as_opaque(node: &qasm::AstNode) -> (r: Option<(String, Vec<qasm::Argument>, Vec<String>)>)
    ensures
        match r {
            Some((name, args, params)) => node_model(*node) == NodeView::Opaque(
                name@,
                operand_models(args@),
                texts(params@),
            ),
            None => !(node_model(*node) is Opaque),
        },
{
    match node {
        qasm::AstNode::Opaque(name, args, params) => Some(
            (name.clone(), args.clone(), params.clone()),
        ),
        _ => None,
    }
}

/// The name, formal qubits, formal parameters and body of a
/// `qasm::AstNode::Gate`; nothing for another variant.
#[verifier::external_body]
fn as_definition(node: &qasm::AstNode) -> (r: Option<
    (String, Vec<String>, Vec<String>, Vec<qasm::AstNode>),
>)
    ensures
        match r {
            Some((name, qubits, params, body)) => node_model(*node) == NodeView::Gate(
                name@,
                texts(qubits@),
                texts(params@),
                node_models(body@),
            ),
            None => !(node_model(*node) is Gate),
        },
{
    match node {
        qasm::AstNode::Gate(name, qubits, params, body) => Some(
            (name.clone(), qubits.clone(), params.clone(), body.clone()),
        ),
        _ => None,
    }
}

/// The register, value and inner statement of a `qasm::AstNode::If`; nothing
/// for another variant.
#[verifier::external_body]
fn as_conditional(node: &qasm::AstNode) -> (r: Option<(String, i32, qasm::AstNode)>)
    ensures
        match r {
            Some((register, value, inner)) => node_model(*node) == NodeView::If(
                register@,
                value as int,
                Box::new(node_model(inner)),
            ),
            None => !(node_model(*node) is If),
        },
{
    match node {
        qasm::AstNode::If(register, value, inner) => Some(
            (register.clone(), *value, (**inner).clone()),
        ),
        _ => None,
    }
}

/// The name of a `qasm::Argument`, and its index where it has one: a
/// `Qubit` has both, a `Register` the name alone.
#[verifier::external_body]
fn argument_parts(arg: &qasm::Argument) -> (r: (String, Option<i32>))
    ensures
        operand_model(*arg) == match r.1 {
            Some(index) => OperandView::Qubit(r.0@, index as int),
            None => OperandView::Register(r.0@),
        },
{
    match arg {
        qasm::Argument::Qubit(name, index) => (name.clone(), Some(*index)),
        qasm::Argument::Register(name) => (name.clone(), None),
    }
}

/// An operand in the library's own form: it holds what the operand of the
/// `qasm` crate holds.
fn convert_argument(arg: &qasm::Argument) -> (r: Operand)
    ensures
        r@ == operand_model(*arg),
{
    match argument_parts(arg) {
        (name, Some(index)) => Operand::Qubit(name, index),
        (name, None) => Operand::Register(name),
    }
}

/// A list of operands in the library's own form, one for one and in order.
fn convert_arguments(args: &Vec<qasm::Argument>) -> (out: Vec<Operand>)
    ensures
        operand_views(out@) == operand_models(args@),
{
    let mut out: Vec<Operand> = Vec::new();
    let mut i: usize = 0;
    while i < args.len()
        invariant
            i <= args.len(),
            out.len() == i,
            forall|k: int| 0 <= k < i ==> out@[k]@ == operand_model(args@[k]),
        decreases args.len() - i,
    {
        out.push(convert_argument(&args[i]));
        i += 1;
    }
    assert(operand_views(out@) =~= operand_models(args@));
    out
}

/// A statement in the library's own form: it holds what the statement of the
/// `qasm` crate holds, the statements inside it converted in the same way.
fn convert_node(node: &qasm::AstNode) -> (r: Node)
    ensures
        node_view(r) == node_model(*node),
    decreases node_model(*node), 0nat,
{
    if let Some((name, size)) = as_qreg(node) {
        Node::QReg(name, size)
    } else if let Some((name, size)) = as_creg(node) {
        Node::CReg(name, size)
    } else if let Some(arg) = as_barrier(node) {
        Node::Barrier(convert_argument(&arg))
    } else if let Some(arg) = as_reset(node) {
        Node::Reset(convert_argument(&arg))
    } else if let Some((source, target)) = as_measure(node) {
        Node::Measure(convert_argument(&source), convert_argument(&target))
    } else if let Some((name, args, params)) = as_application(node) {
        Node::ApplyGate(name, convert_arguments(&args), params)
    } else if let Some((name, args, params)) = as_opaque(node) {
        Node::Opaque(name, convert_arguments(&args), params)
    } else if let Some((name, qubits, params, body)) = as_definition(node) {
        proof {
            assert(node_model(*node)->Gate_3 == node_models(body@));
            assert(decreases_to!(node_model(*node) => node_model(*node)->Gate_3));
        }
        let statements = convert_nodes(&body);
        let gate = Node::Gate(name, qubits, params, statements);
        assert(node_view(gate)->Gate_3 =~= node_views(statements@));
        gate
    } else {
        match as_conditional(node) {
            Some((register, value, inner)) => {
                proof {
                    assert(*(node_model(*node)->If_2) == node_model(inner));
                    assert(decreases_to!(node_model(*node) => node_model(*node)->If_2));
                }
                Node::If(register, value, Box::new(convert_node(&inner)))
            },
            None => vstd::pervasive::unreached(),
        }
    }
}

/// A list of statements in the library's own form, one for one and in order.
fn convert_nodes(nodes: &Vec<qasm::AstNode>) -> (out: Vec<Node>)
    ensures
        node_views(out@) == node_models(nodes@),
    decreases node_models(nodes@), 1nat,
{
    let mut out: Vec<Node> = Vec::new();
    let mut i: usize = 0;
    while i < nodes.len()
        invariant
            i <= nodes.len(),
            out.len() == i,
            forall|k: int| 0 <= k < i ==> node_view(out@[k]) == node_model(nodes@[k]),
        decreases nodes.len() - i,
    {
        assert(node_models(nodes@)[i as int] == node_model(nodes@[i as int]));
        out.push(convert_node(&nodes[i]));
        i += 1;
    }
    assert(node_views(out@) =~= node_models(nodes@));
    out
}

/// Parses preprocessed source text into the statements of the program.
///
/// Text that is not [`parsable`] is rejected with `InvalidNodeType` before
/// the parser sees it, and so is text that the parser rejects. Otherwise the
/// statements are those that the parser makes of the text: see
/// [`parsed_program`].
pub fn parse_program(source: &str) -> (r: Result<Vec<Node>, LoweringError>)
    ensures
        match r {
            Ok(nodes) => parsable(source@) && parsed_program(source@) == Some(node_views(nodes@)),
            Err(e) => e == LoweringError::InvalidNodeType && (!parsable(source@) || parsed_program(
                source@,
            ) is None),
        },
{
    let chars = chars_of(source);
    if !is_parsable(&chars) {
        return Err(LoweringError::InvalidNodeType);
    }
    match parse_text(source) {
        Err(_) => Err(LoweringError::InvalidNodeType),
        Ok(ast) => Ok(convert_nodes(&ast)),
    }
}

} // verus!
