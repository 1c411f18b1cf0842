use std::ops::Range;
use vstd::prelude::*;
use vstd::string::StringSliceAdditionalSpecFns;

verus! {

/// A token with a fixed spelling: a delimiter, an operator or a keyword.
#[derive(Debug, Clone, Copy, PartialEq, Eq, Structural)]
pub enum TerminalToken {
    /// `{`
    OpenBrace,
    /// `}`
    CloseBrace,
    /// `[`
    OpenSquare,
    /// `]`
    CloseSquare,
    /// `(`
    OpenBracket,
    /// `)`
    CloseBracket,
    /// `</`
    OpenAttributes,
    /// `/>`
    CloseAttributes,
    /// `;`
    Semicolon,
    /// `,`
    Comma,
    /// `.`
    Dot,
    /// `...`
    Vararg,
    /// `:`
    Colon,
    /// `::`
    Namespace,
    /// `?`
    Question,
    /// `@`
    At,
    /// `=`
    Assign,
    /// `+=`
    AddAssign,
    /// `-=`
    SubtractAssign,
    /// `*=`
    MultiplyAssign,
    /// `/=`
    DivideAssign,
    /// `%=`
    ModuloAssign,
    /// `<-`
    NewSlot,
    /// `++`
    Increment,
    /// `--`
    Decrement,
    /// `+`
    Add,
    /// `-`
    Subtract,
    /// `*`
    Multiply,
    /// `/`
    Divide,
    /// `%`
    Modulo,
    /// `==`
    Equal,
    /// `!=`
    NotEqual,
    /// `<`
    Less,
    /// `<=`
    LessEqual,
    /// `>`
    Greater,
    /// `>=`
    GreaterEqual,
    /// `<=>`
    ThreeWay,
    /// `<<`
    ShiftLeft,
    /// `!`
    LogicalNot,
    /// `&&`
    LogicalAnd,
    /// `||`
    LogicalOr,
    /// `~`
    BitwiseNot,
    /// `&`
    BitwiseAnd,
    /// `|`
    BitwiseOr,
    /// `^`
    BitwiseXor,
    /// `base`
    Base,
    /// `break`
    Break,
    /// `case`
    Case,
    /// `catch`
    Catch,
    /// `class`
    Class,
    /// `clone`
    Clone,
    /// `const`
    Const,
    /// `constructor`
    Constructor,
    /// `continue`
    Continue,
    /// `default`
    Default,
    /// `delaythread`
    DelayThread,
    /// `delete`
    Delete,
    /// `do`
    Do,
    /// `else`
    Else,
    /// `enum`
    Enum,
    /// `expect`
    Expect,
    /// `extends`
    Extends,
    /// `false`
    False,
    /// `for`
    For,
    /// `foreach`
    Foreach,
    /// `function`
    Function,
    /// `functionref`
    FunctionRef,
    /// `global`
    Global,
    /// `globalize_all_functions`
    GlobalizeAllFunctions,
    /// `if`
    If,
    /// `in`
    In,
    /// `instanceof`
    Instanceof,
    /// `local`
    Local,
    /// `null`
    Null,
    /// `ornull`
    OrNull,
    /// `resume`
    Resume,
    /// `return`
    Return,
    /// `static`
    Static,
    /// `struct`
    Struct,
    /// `switch`
    Switch,
    /// `this`
    This,
    /// `thread`
    Thread,
    /// `throw`
    Throw,
    /// `true`
    True,
    /// `try`
    Try,
    /// `typedef`
    Typedef,
    /// `typeof`
    Typeof,
    /// `untyped`
    Untyped,
    /// `wait`
    Wait,
    /// `waitthread`
    WaitThread,
    /// `waitthreadsolo`
    WaitThreadSolo,
    /// `while`
    While,
    /// `yield`
    Yield,
}

/// A literal value, kept as it is spelled in the source.
#[derive(Debug, Clone, Copy, PartialEq)]
pub enum LiteralToken<'s> {
    /// A decimal or hexadecimal integer.
    Int(&'s str),
    /// A number with a fraction or an exponent.
    Float(&'s str),
    /// A character in single quotes.
    Char(&'s str),
    /// A string in double quotes.
    String(&'s str),
    /// A string that starts with `@"` and may span lines.
    VerbatimString(&'s str),
    /// An asset path that starts with `$"`.
    Asset(&'s str),
}

/// What a token is.
#[derive(Debug, Clone, Copy, PartialEq)]
pub enum TokenType<'s> {
    /// A token with a fixed spelling.
    Terminal(TerminalToken),
    /// A literal value.
    Literal(LiteralToken<'s>),
    /// A name.
    Identifier(&'s str),
}

/// A comment, with the marks that delimit it.
#[derive(Debug, Clone, Copy, PartialEq)]
pub enum Comment<'s> {
    /// A comment that starts with `//` and ends with its line.
    SingleLine(&'s str),
    /// A comment between `/*` and `*/`.
    MultiLine(&'s str),
    /// A comment that starts with `#` and ends with its line.
    ScriptStyle(&'s str),
}

/// The part of a line that holds no token.
#[derive(Debug, PartialEq)]
pub struct TokenLine<'s> {
    /// The comments in that part of the line.
    pub comments: Vec<Comment<'s>>,
}

/// A token of a source text, with the blank space and comments around it.
#[derive(Debug, PartialEq)]
pub struct Token<'s> {
    /// What the token is.
    pub ty: TokenType<'s>,

    /// The bytes of the source that the token takes up.
    pub range: Range<usize>,

    /// The comments before the token in its own line.
    pub comments: Vec<Comment<'s>>,

    /// The lines without a token that end before the line of this token.
    pub before_lines: Vec<TokenLine<'s>>,

    /// The rest of the line, if this token is the last one of a line that ends with a line break.
    pub new_line: Option<TokenLine<'s>>,
}

/// The value of a [`LiteralToken`].
pub enum LiteralView {
    Int(Seq<u8>),
    Float(Seq<u8>),
    Char(Seq<u8>),
    String(Seq<u8>),
    VerbatimString(Seq<u8>),
    Asset(Seq<u8>),
}

/// The value of a [`TokenType`].
pub enum TypeView {
    Terminal(TerminalToken),
    Literal(LiteralView),
    Identifier(Seq<u8>),
}

/// The value of a [`Comment`].
pub enum CommentView {
    SingleLine(Seq<u8>),
    MultiLine(Seq<u8>),
    ScriptStyle(Seq<u8>),
}

/// The value of a [`Token`].
pub struct TokenView {
    pub ty: TypeView,
    pub start: int,
    pub end: int,
    pub comments: Seq<CommentView>,
    pub before_lines: Seq<Seq<CommentView>>,
    pub new_line: Option<Seq<CommentView>>,
}

impl View for LiteralToken<'_> {
    type V = LiteralView;

    open spec fn view(&self) -> LiteralView {
        match *self {
            LiteralToken::Int(text) => LiteralView::Int(text.spec_bytes()),
            LiteralToken::Float(text) => LiteralView::Float(text.spec_bytes()),
            LiteralToken::Char(text) => LiteralView::Char(text.spec_bytes()),
            LiteralToken::String(text) => LiteralView::String(text.spec_bytes()),
            LiteralToken::VerbatimString(text) => LiteralView::VerbatimString(text.spec_bytes()),
            LiteralToken::Asset(text) => LiteralView::Asset(text.spec_bytes()),
        }
    }
}

impl View for TokenType<'_> {
    type V = TypeView;

    open spec fn view(&self) -> TypeView {
        match *self {
            TokenType::Terminal(terminal) => TypeView::Terminal(terminal),
            TokenType::Literal(literal) => TypeView::Literal(literal@),
            TokenType::Identifier(text) => TypeView::Identifier(text.spec_bytes()),
        }
    }
}

impl View for Comment<'_> {
    type V = CommentView;

    open spec fn view(&self) -> CommentView {
        match *self {
            Comment::SingleLine(text) => CommentView::SingleLine(text.spec_bytes()),
            Comment::MultiLine(text) => CommentView::MultiLine(text.spec_bytes()),
            Comment::ScriptStyle(text) => CommentView::ScriptStyle(text.spec_bytes()),
        }
    }
}

/// The values of a run of comments.
pub open spec fn comment_views<'s>(comments: Seq<Comment<'s>>) -> Seq<CommentView> {
    Seq::new(comments.len(), |i: int| comments[i]@)
}

impl View for TokenLine<'_> {
    type V = Seq<CommentView>;

    open spec fn view(&self) -> Seq<CommentView> {
        comment_views(self.comments@)
    }
}

/// The values of a run of lines.
pub open spec fn line_views<'s>(lines: Seq<TokenLine<'s>>) -> Seq<Seq<CommentView>> {
    Seq::new(lines.len(), |i: int| lines[i]@)
}

impl View for Token<'_> {
    type V = TokenView;

    open spec fn view(&self) -> TokenView {
        TokenView {
            ty: self.ty@,
            start: self.range.start as int,
            end: self.range.end as int,
            comments: comment_views(self.comments@),
            before_lines: line_views(self.before_lines@),
            new_line: match self.new_line {
                Some(line) => Some(line@),
                None => None,
            },
        }
    }
}

impl Clone for TokenLine<'_> {
    fn clone(&self) -> (copy: Self)
        ensures
            copy@ == self@,
    {
        let comments = self.comments.clone();
        proof {
            lemma_cloned_comments(self.comments@, comments@);
        }
        TokenLine { comments }
    }
}

impl Clone for Token<'_> {
    fn clone(&self) -> (copy: Self)
        ensures
            copy@ == self@,
    {
        let comments = self.comments.clone();
        let before_lines = self.before_lines.clone();
        proof {
            lemma_cloned_comments(self.comments@, comments@);
        }
        assert(line_views(before_lines@) =~= line_views(self.before_lines@)) by {
            assert forall|i: int| 0 <= i < before_lines@.len() implies before_lines@[i]@
                == self.before_lines@[i]@ by {
                assert(cloned(self.before_lines@[i], before_lines@[i]));
            }
        }
        Token {
            ty: self.ty,
            range: self.range.start..self.range.end,
            comments,
            before_lines,
            new_line: match &self.new_line {
                Some(line) => Some(line.clone()),
                None => None,
            },
        }
    }
}

/// Copying comments one by one keeps their values.
proof fn lemma_cloned_comments<'s>(old_comments: Seq<Comment<'s>>, new_comments: Seq<Comment<'s>>)
    requires
        old_comments.len() == new_comments.len(),
        forall|i: int|
            0 <= i < new_comments.len() ==> cloned::<Comment<'s>>(
                old_comments[i],
                #[trigger] new_comments[i],
            ),
    ensures
        comment_views(new_comments) == comment_views(old_comments),
{
    assert(comment_views(new_comments) =~= comment_views(old_comments));
}

} // verus!
