//! The arguments of an `asm!`, and the tokens they are written as.

use crate::assembly::constraints::{dir_keyword, ArgDirSpec};
use crate::assembly::statement::{
    arg_views, option_keyword, ArgView, AsmArg, AsmExpr, AsmOption, OperandPlace, OutPlace,
    PlaceView,
};
use crate::text::strings;
use vstd::prelude::*;

verus! {

/// The arguments of an `asm!`.
#[derive(Debug)]
pub struct AsmCall {
    /// The lines of the template, each with its line feed.
    pub template: Vec<String>,
    pub args: Vec<AsmArg>,
    /// The registers that are written to without an operand.
    pub clobbers: Vec<String>,
    pub options: Vec<AsmOption>,
}

/// What an [`AsmCall`] says.
#[verifier::ext_equal]
pub struct CallView {
    pub template: Seq<Seq<char>>,
    pub args: Seq<ArgView>,
    pub clobbers: Seq<Seq<char>>,
    pub options: Seq<AsmOption>,
}

impl View for AsmCall {
    type V = CallView;

    open spec fn view(&self) -> CallView {
        CallView {
            template: strings(self.template@),
            args: arg_views(self.args@),
            clobbers: strings(self.clobbers@),
            options: self.options@,
        }
    }
}

/// A token of the arguments of an `asm!`.
#[derive(Clone, Debug)]
pub enum AsmToken {
    /// A punctuation character.
    Punct(char),
    /// A punctuation character that the next one belongs to.
    JointPunct(char),
    Ident(String),
    /// A string literal.
    Literal(String),
    /// The tokens of an expression.
    Value(AsmExpr),
    /// A string literal in parentheses.
    ParenLiteral(String),
    /// Identifiers in parentheses, with commas between them.
    ParenIdents(Vec<String>),
}

/// What an [`AsmToken`] says.
#[verifier::ext_equal]
pub enum TokenView {
    Punct(char),
    JointPunct(char),
    Ident(Seq<char>),
    Literal(Seq<char>),
    Value(AsmExpr),
    ParenLiteral(Seq<char>),
    ParenIdents(Seq<Seq<char>>),
}

impl View for AsmToken {
    type V = TokenView;

    open spec fn view(&self) -> TokenView {
        match self {
            AsmToken::Punct(c) => TokenView::Punct(*c),
            AsmToken::JointPunct(c) => TokenView::JointPunct(*c),
            AsmToken::Ident(s) => TokenView::Ident(s@),
            AsmToken::Literal(s) => TokenView::Literal(s@),
            AsmToken::Value(e) => TokenView::Value(*e),
            AsmToken::ParenLiteral(s) => TokenView::ParenLiteral(s@),
            AsmToken::ParenIdents(v) => TokenView::ParenIdents(strings(v@)),
        }
    }
}

/// The views of a list of tokens.
pub open spec fn token_views(tokens: Seq<AsmToken>) -> Seq<TokenView> {
    Seq::new(tokens.len(), |i: int| tokens[i]@)
}

/// The lines of a template as literals with commas between them.
pub open spec fn template_tokens(lines: Seq<Seq<char>>) -> Seq<TokenView>
    decreases lines.len(),
{
    if lines.len() == 0 {
        Seq::empty()
    } else if lines.len() == 1 {
        seq![TokenView::Literal(lines[0])]
    } else {
        template_tokens(lines.drop_last()) + seq![
            TokenView::Punct(','),
            TokenView::Literal(lines.last()),
        ]
    }
}

/// A place in parentheses: a register as a literal, a class as an identifier.
pub open spec fn place_token(place: PlaceView) -> TokenView {
    match place {
        PlaceView::Register(s) => TokenView::ParenLiteral(s),
        PlaceView::Class(s) => TokenView::ParenIdents(seq![s]),
    }
}

/// `name =`, if there is a name.
pub open spec fn name_tokens(name: Option<Seq<char>>) -> Seq<TokenView> {
    match name {
        Some(n) => seq![TokenView::Ident(n), TokenView::Punct('=')],
        None => Seq::empty(),
    }
}

/// The input, the output, and `=>` between the two if there are both.
pub open spec fn value_tokens(in_expr: Option<AsmExpr>, out_expr: OutPlace) -> Seq<TokenView> {
    let input = match in_expr {
        Some(e) => if out_expr is Absent {
            seq![TokenView::Value(e)]
        } else {
            seq![TokenView::Value(e), TokenView::JointPunct('='), TokenView::Punct('>')]
        },
        None => Seq::empty(),
    };
    let output = match out_expr {
        OutPlace::Absent => Seq::empty(),
        OutPlace::Discard => seq![TokenView::Ident("_"@)],
        OutPlace::To(e) => seq![TokenView::Value(e)],
    };
    input + output
}

/// An operand, with the comma before it:
/// `, name = dir(place) input => output`.
pub open spec fn arg_tokens(arg: ArgView) -> Seq<TokenView> {
    seq![TokenView::Punct(',')] + name_tokens(arg.name) + seq![
        TokenView::Ident(dir_keyword(arg.dir_spec)),
        place_token(arg.place),
    ] + value_tokens(arg.in_expr, arg.out_expr)
}

/// The operands.
pub open spec fn args_tokens(args: Seq<ArgView>) -> Seq<TokenView>
    decreases args.len(),
{
    if args.len() == 0 {
        Seq::empty()
    } else {
        args_tokens(args.drop_last()) + arg_tokens(args.last())
    }
}

/// A clobbered register, with the comma before it: `, out("reg") _`.
pub open spec fn clobber_tokens(clobber: Seq<char>) -> Seq<TokenView> {
    seq![
        TokenView::Punct(','),
        TokenView::Ident("out"@),
        TokenView::ParenLiteral(clobber),
        TokenView::Ident("_"@),
    ]
}

/// The clobbered registers.
pub open spec fn clobbers_tokens(clobbers: Seq<Seq<char>>) -> Seq<TokenView>
    decreases clobbers.len(),
{
    if clobbers.len() == 0 {
        Seq::empty()
    } else {
        clobbers_tokens(clobbers.drop_last()) + clobber_tokens(clobbers.last())
    }
}

/// The keywords of a list of options.
pub open spec fn option_keywords(options: Seq<AsmOption>) -> Seq<Seq<char>> {
    Seq::new(options.len(), |i: int| option_keyword(options[i]))
}

/// The options, with the comma before them, if there are any.
pub open spec fn options_tokens(options: Seq<AsmOption>) -> Seq<TokenView> {
    if options.len() == 0 {
        Seq::empty()
    } else {
        seq![
            TokenView::Punct(','),
            TokenView::Ident("options"@),
            TokenView::ParenIdents(option_keywords(options)),
        ]
    }
}

/// The tokens of the arguments of an `asm!`.
pub open spec fn call_tokens(call: CallView) -> Seq<TokenView> {
    template_tokens(call.template) + args_tokens(call.args) + clobbers_tokens(call.clobbers)
        + options_tokens(call.options)
}

fn push_token(out: &mut Vec<AsmToken>, token: AsmToken)
    ensures
        token_views(final(out)@) == token_views(old(out)@).push(token@),
{
    let ghost before = out@;
    out.push(token);
    assert(token_views(out@) =~= token_views(before).push(token@));
}

fn push_template(out: &mut Vec<AsmToken>, lines: &Vec<String>)
    ensures
        token_views(final(out)@) == token_views(old(out)@) + template_tokens(strings(lines@)),
{
    let ghost all = strings(lines@);
    let mut i: usize = 0;
    assert(all.take(0).len() == 0);
    while i < lines.len()
        invariant
            i <= lines@.len(),
            all == strings(lines@),
            token_views(out@) == token_views(old(out)@) + template_tokens(all.take(i as int)),
        decreases lines@.len() - i,
    {
        assert(all.take(i + 1).drop_last() == all.take(i as int));
        assert(all.take(i + 1).last() == lines@[i as int]@);
        if i > 0 {
            push_token(out, AsmToken::Punct(','));
        }
        push_token(out, AsmToken::Literal(lines[i].clone()));
        i += 1;
        assert(token_views(out@) == token_views(old(out)@) + template_tokens(all.take(i as int)));
    }
    assert(all.take(all.len() as int) == all);
}

fn push_place(out: &mut Vec<AsmToken>, place: &OperandPlace)
    ensures
        token_views(final(out)@) == token_views(old(out)@).push(place_token(place@)),
{
    match place {
        OperandPlace::Register(s) => push_token(out, AsmToken::ParenLiteral(s.clone())),
        OperandPlace::Class(s) => {
            let mut idents: Vec<String> = Vec::new();
            idents.push(s.clone());
            assert(strings(idents@) == seq![s@]);
            push_token(out, AsmToken::ParenIdents(idents));
        },
    }
}

fn push_values(out: &mut Vec<AsmToken>, in_expr: Option<AsmExpr>, out_expr: OutPlace)
    ensures
        token_views(final(out)@) == token_views(old(out)@) + value_tokens(in_expr, out_expr),
{
    if let Some(e) = in_expr {
        push_token(out, AsmToken::Value(e));
        if out_expr != OutPlace::Absent {
            push_token(out, AsmToken::JointPunct('='));
            push_token(out, AsmToken::Punct('>'));
        }
    }
    match out_expr {
        OutPlace::Absent => {},
        OutPlace::Discard => push_token(out, AsmToken::Ident("_".to_owned())),
        OutPlace::To(e) => push_token(out, AsmToken::Value(e)),
    }
    assert(token_views(out@) == token_views(old(out)@) + value_tokens(in_expr, out_expr));
}

fn push_arg(out: &mut Vec<AsmToken>, arg: &AsmArg)
    ensures
        token_views(final(out)@) == token_views(old(out)@) + arg_tokens(arg@),
{
    push_token(out, AsmToken::Punct(','));
    if let Some(name) = &arg.name {
        push_token(out, AsmToken::Ident(name.clone()));
        push_token(out, AsmToken::Punct('='));
    }
    assert(token_views(out@) == token_views(old(out)@) + seq![TokenView::Punct(',')] + name_tokens(
        arg@.name,
    ));
    push_token(out, AsmToken::Ident(arg.dir_spec.keyword().to_owned()));
    push_place(out, &arg.place);
    push_values(out, arg.in_expr, arg.out_expr);
    assert(token_views(out@) == token_views(old(out)@) + arg_tokens(arg@));
}

fn push_args(out: &mut Vec<AsmToken>, args: &Vec<AsmArg>)
    ensures
        token_views(final(out)@) == token_views(old(out)@) + args_tokens(arg_views(args@)),
{
    let ghost all = arg_views(args@);
    let mut i: usize = 0;
    assert(all.take(0).len() == 0);
    while i < args.len()
        invariant
            i <= args@.len(),
            all == arg_views(args@),
            token_views(out@) == token_views(old(out)@) + args_tokens(all.take(i as int)),
        decreases args@.len() - i,
    {
        assert(all.take(i + 1).drop_last() == all.take(i as int));
        assert(all.take(i + 1).last() == args@[i as int]@);
        push_arg(out, &args[i]);
        i += 1;
        assert(token_views(out@) == token_views(old(out)@) + args_tokens(all.take(i as int)));
    }
    assert(all.take(all.len() as int) == all);
}

fn push_clobbers(out: &mut Vec<AsmToken>, clobbers: &Vec<String>)
    ensures
        token_views(final(out)@) == token_views(old(out)@) + clobbers_tokens(strings(clobbers@)),
{
    let ghost all = strings(clobbers@);
    let mut i: usize = 0;
    assert(all.take(0).len() == 0);
    while i < clobbers.len()
        invariant
            i <= clobbers@.len(),
            all == strings(clobbers@),
            token_views(out@) == token_views(old(out)@) + clobbers_tokens(all.take(i as int)),
        decreases clobbers@.len() - i,
    {
        assert(all.take(i + 1).drop_last() == all.take(i as int));
        assert(all.take(i + 1).last() == clobbers@[i as int]@);
        push_token(out, AsmToken::Punct(','));
        push_token(out, AsmToken::Ident("out".to_owned()));
        push_token(out, AsmToken::ParenLiteral(clobbers[i].clone()));
        push_token(out, AsmToken::Ident("_".to_owned()));
        i += 1;
        assert(token_views(out@) == token_views(old(out)@) + clobbers_tokens(all.take(i as int)));
    }
    assert(all.take(all.len() as int) == all);
}

fn push_options(out: &mut Vec<AsmToken>, options: &Vec<AsmOption>)
    ensures
        token_views(final(out)@) == token_views(old(out)@) + options_tokens(options@),
{
    if options.len() > 0 {
        let mut keywords: Vec<String> = Vec::new();
        let mut i: usize = 0;
        while i < options.len()
            invariant
                i <= options@.len(),
                strings(keywords@) == option_keywords(options@).take(i as int),
            decreases options@.len() - i,
        {
            let ghost before = keywords@;
            keywords.push(options[i].keyword().to_owned());
            assert(strings(keywords@) =~= strings(before).push(option_keyword(options@[i as int])));
            i += 1;
        }
        assert(strings(keywords@) == option_keywords(options@));
        push_token(out, AsmToken::Punct(','));
        push_token(out, AsmToken::Ident("options".to_owned()));
        push_token(out, AsmToken::ParenIdents(keywords));
    }
    assert(token_views(out@) == token_views(old(out)@) + options_tokens(options@));
}

impl AsmCall {
    /// The tokens of the arguments.
    pub fn tokens(&self) -> (res: Vec<AsmToken>)
        ensures
            token_views(res@) == call_tokens(self@),
    {
        let mut out: Vec<AsmToken> = Vec::new();
        push_template(&mut out, &self.template);
        push_args(&mut out, &self.args);
        push_clobbers(&mut out, &self.clobbers);
        push_options(&mut out, &self.options);
        assert(token_views(out@) == call_tokens(self@));
        out
    }
}

/// The line with this number stands among the tokens as a literal, and a comma
/// before it unless it is the first.
pub open spec fn is_written_at(
    tokens: Seq<TokenView>,
    lines: Seq<Seq<char>>,
    i: int,
) -> bool {
    &&& tokens[2 * i] == TokenView::Literal(lines[i])
    &&& i > 0 ==> tokens[2 * i - 1] == TokenView::Punct(',')
}

/// The lines of a template are written in order, each as a literal, with one
/// comma between every two.
pub proof fn law_template_is_written_line_by_line(lines: Seq<Seq<char>>)
    requires
        lines.len() > 0,
    ensures
        template_tokens(lines).len() == 2 * lines.len() - 1,
        forall|i: int|
            0 <= i < lines.len() ==> #[trigger] is_written_at(template_tokens(lines), lines, i),
    decreases lines.len(),
{
    let tokens = template_tokens(lines);
    if lines.len() > 1 {
        let front = lines.drop_last();
        law_template_is_written_line_by_line(front);
        assert forall|i: int| 0 <= i < lines.len() implies #[trigger] is_written_at(
            tokens,
            lines,
            i,
        ) by {
            if i < front.len() {
                assert(is_written_at(template_tokens(front), front, i));
                assert(tokens[2 * i] == template_tokens(front)[2 * i]);
            }
        }
    }
}

/// An operand is written behind a comma: its name and `=` if it has one, its
/// direction, its place in parentheses, its input, and its output, with `=>`
/// between the two if it has both.
pub proof fn law_operands_are_written_out(args: Seq<ArgView>, arg: ArgView)
    ensures
        args_tokens(Seq::empty()).len() == 0,
        ({
            let comma = seq![TokenView::Punct(',')];
            let name = match arg.name {
                Some(n) => seq![TokenView::Ident(n), TokenView::Punct('=')],
                None => Seq::empty(),
            };
            let dir = match arg.dir_spec {
                ArgDirSpec::In => "in"@,
                ArgDirSpec::Out => "out"@,
                ArgDirSpec::InOut => "inout"@,
                ArgDirSpec::LateOut => "lateout"@,
                ArgDirSpec::InLateOut => "inlateout"@,
            };
            let place = match arg.place {
                PlaceView::Register(s) => TokenView::ParenLiteral(s),
                PlaceView::Class(s) => TokenView::ParenIdents(seq![s]),
            };
            let values = match (arg.in_expr, arg.out_expr) {
                (None, OutPlace::Absent) => Seq::empty(),
                (None, OutPlace::Discard) => seq![TokenView::Ident("_"@)],
                (None, OutPlace::To(o)) => seq![TokenView::Value(o)],
                (Some(i), OutPlace::Absent) => seq![TokenView::Value(i)],
                (Some(i), OutPlace::Discard) => seq![
                    TokenView::Value(i),
                    TokenView::JointPunct('='),
                    TokenView::Punct('>'),
                    TokenView::Ident("_"@),
                ],
                (Some(i), OutPlace::To(o)) => seq![
                    TokenView::Value(i),
                    TokenView::JointPunct('='),
                    TokenView::Punct('>'),
                    TokenView::Value(o),
                ],
            };
            args_tokens(args.push(arg)) == args_tokens(args) + (comma + name + seq![
                TokenView::Ident(dir),
                place,
            ] + values)
        }),
{
    assert(args.push(arg).drop_last() =~= args);
    let values = match (arg.in_expr, arg.out_expr) {
        (None, OutPlace::Absent) => Seq::empty(),
        (None, OutPlace::Discard) => seq![TokenView::Ident("_"@)],
        (None, OutPlace::To(o)) => seq![TokenView::Value(o)],
        (Some(i), OutPlace::Absent) => seq![TokenView::Value(i)],
        (Some(i), OutPlace::Discard) => seq![
            TokenView::Value(i),
            TokenView::JointPunct('='),
            TokenView::Punct('>'),
            TokenView::Ident("_"@),
        ],
        (Some(i), OutPlace::To(o)) => seq![
            TokenView::Value(i),
            TokenView::JointPunct('='),
            TokenView::Punct('>'),
            TokenView::Value(o),
        ],
    };
    assert(value_tokens(arg.in_expr, arg.out_expr) =~= values);
}

/// A clobbered register is written behind a comma as an output that is dropped.
pub proof fn law_clobbers_are_written_out(clobbers: Seq<Seq<char>>, clobber: Seq<char>)
    ensures
        clobbers_tokens(Seq::empty()).len() == 0,
        clobbers_tokens(clobbers.push(clobber)) == clobbers_tokens(clobbers) + seq![
            TokenView::Punct(','),
            TokenView::Ident("out"@),
            TokenView::ParenLiteral(clobber),
            TokenView::Ident("_"@),
        ],
{
    assert(clobbers.push(clobber).drop_last() =~= clobbers);
}

/// The options are written behind a comma, all in one list and by their keywords,
/// and not at all if there are none.
pub proof fn law_options_are_written_out(options: Seq<AsmOption>)
    ensures
        options_tokens(Seq::empty()).len() == 0,
        options.len() > 0 ==> options_tokens(options) == seq![
            TokenView::Punct(','),
            TokenView::Ident("options"@),
            TokenView::ParenIdents(
                options.map_values(
                    |option: AsmOption|
                        match option {
                            AsmOption::PreservesFlags => "preserves_flags"@,
                            AsmOption::Pure => "pure"@,
                            AsmOption::Readonly => "readonly"@,
                            AsmOption::AttSyntax => "att_syntax"@,
                        },
                ),
            ),
        ],
{
    let keywords = options.map_values(
        |option: AsmOption|
            match option {
                AsmOption::PreservesFlags => "preserves_flags"@,
                AsmOption::Pure => "pure"@,
                AsmOption::Readonly => "readonly"@,
                AsmOption::AttSyntax => "att_syntax"@,
            },
    );
    assert(option_keywords(options) =~= keywords);
}

/// The template comes first, then the operands, the clobbers and the options.
pub proof fn law_arguments_come_in_order(call: CallView)
    ensures
        template_tokens(call.template).is_prefix_of(call_tokens(call)),
        call_tokens(call).skip(template_tokens(call.template).len() as int) == args_tokens(call.args)
            + (clobbers_tokens(call.clobbers) + options_tokens(call.options)),
{
    let head = template_tokens(call.template);
    assert(call_tokens(call).take(head.len() as int) =~= head);
    assert(call_tokens(call).skip(head.len() as int) =~= args_tokens(call.args) + (clobbers_tokens(
        call.clobbers,
    ) + options_tokens(call.options)));
}

} // verus!
