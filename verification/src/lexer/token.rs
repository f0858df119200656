use vstd::prelude::*;
use vstd::string::StrSliceExecFns;

verus! {

/// The closed set of token kinds the scanner can produce.
///
/// `Identifier` carries the identifier's own text.  `Number` carries the raw
/// numeric lexeme exactly as it was scanned (a maximal run of decimal digits
/// and `.` characters); interpreting that lexeme as a numeric value is left
/// to the caller.
#[derive(Debug, PartialEq, Clone)]
pub enum TokenKind {
    /// A character the scanner does not recognize.
    Illegal,
    /// End of input; produced again by every later call.
    Eof,
    /// An identifier, e.g. `add`, `foobar`, `x`.
    Identifier(String),
    /// A numeric literal's lexeme, e.g. `123`, `3.14`.
    Number(String),
    /// `=`
    Assign,
    /// `+`
    Plus,
    /// `-`
    Minus,
    /// `!`
    Bang,
    /// `*`
    Asterisk,
    /// `/`
    Slash,
    /// `==`
    Equal,
    /// `!=`
    NotEqual,
    /// `<`
    LessThan,
    /// `>`
    GreaterThan,
    /// `,`
    Comma,
    /// `;`
    Semicolon,
    /// `(`
    LParen,
    /// `)`
    RParen,
    /// `{`
    LBrace,
    /// `}`
    RBrace,
    /// The keyword `fn`.
    Function,
    /// The keyword `let`.
    Let,
    /// The keyword `true`.
    True,
    /// The keyword `false`.
    False,
    /// The keyword `if`.
    If,
    /// The keyword `else`.
    Else,
    /// The keyword `return`.
    Return,
}

/// The bare variant of a [`TokenKind`], without payload.  Contracts and
/// lemmas describe a scanned token by its tag together with its literal
/// text, since the payload of `Identifier` and `Number` always equals the
/// literal.
pub enum TokenTag {
    Illegal,
    Eof,
    Identifier,
    Number,
    Assign,
    Plus,
    Minus,
    Bang,
    Asterisk,
    Slash,
    Equal,
    NotEqual,
    LessThan,
    GreaterThan,
    Comma,
    Semicolon,
    LParen,
    RParen,
    LBrace,
    RBrace,
    Function,
    Let,
    True,
    False,
    If,
    Else,
    Return,
}

/// The tag of a token kind.
pub open spec fn tag_of(k: TokenKind) -> TokenTag {
    match k {
        TokenKind::Illegal => TokenTag::Illegal,
        TokenKind::Eof => TokenTag::Eof,
        TokenKind::Identifier(_) => TokenTag::Identifier,
        TokenKind::Number(_) => TokenTag::Number,
        TokenKind::Assign => TokenTag::Assign,
        TokenKind::Plus => TokenTag::Plus,
        TokenKind::Minus => TokenTag::Minus,
        TokenKind::Bang => TokenTag::Bang,
        TokenKind::Asterisk => TokenTag::Asterisk,
        TokenKind::Slash => TokenTag::Slash,
        TokenKind::Equal => TokenTag::Equal,
        TokenKind::NotEqual => TokenTag::NotEqual,
        TokenKind::LessThan => TokenTag::LessThan,
        TokenKind::GreaterThan => TokenTag::GreaterThan,
        TokenKind::Comma => TokenTag::Comma,
        TokenKind::Semicolon => TokenTag::Semicolon,
        TokenKind::LParen => TokenTag::LParen,
        TokenKind::RParen => TokenTag::RParen,
        TokenKind::LBrace => TokenTag::LBrace,
        TokenKind::RBrace => TokenTag::RBrace,
        TokenKind::Function => TokenTag::Function,
        TokenKind::Let => TokenTag::Let,
        TokenKind::True => TokenTag::True,
        TokenKind::False => TokenTag::False,
        TokenKind::If => TokenTag::If,
        TokenKind::Else => TokenTag::Else,
        TokenKind::Return => TokenTag::Return,
    }
}

/// A token kind fits a tag and a literal when its tag is `tag` and, for the
/// payload-carrying kinds, the payload equals the literal text.
pub open spec fn kind_fits(k: TokenKind, tag: TokenTag, lit: Seq<char>) -> bool {
    &&& tag_of(k) == tag
    &&& (k matches TokenKind::Identifier(w) ==> w@ == lit)
    &&& (k matches TokenKind::Number(x) ==> x@ == lit)
}

/// The canonical display text of a token kind: the carried text for
/// `Identifier` and `Number`, a fixed literal for every other kind.
pub open spec fn spec_render(k: TokenKind) -> Seq<char> {
    match k {
        TokenKind::Illegal => "Illegal"@,
        TokenKind::Eof => "Eof"@,
        TokenKind::Identifier(w) => w@,
        TokenKind::Number(x) => x@,
        TokenKind::Assign => "="@,
        TokenKind::Plus => "+"@,
        TokenKind::Minus => "-"@,
        TokenKind::Bang => "!"@,
        TokenKind::Asterisk => "*"@,
        TokenKind::Slash => "/"@,
        TokenKind::Equal => "=="@,
        TokenKind::NotEqual => "!="@,
        TokenKind::LessThan => "<"@,
        TokenKind::GreaterThan => ">"@,
        TokenKind::Comma => ","@,
        TokenKind::Semicolon => ";"@,
        TokenKind::LParen => "("@,
        TokenKind::RParen => ")"@,
        TokenKind::LBrace => "{"@,
        TokenKind::RBrace => "}"@,
        TokenKind::Function => "fn"@,
        TokenKind::Let => "let"@,
        TokenKind::True => "true"@,
        TokenKind::False => "false"@,
        TokenKind::If => "if"@,
        TokenKind::Else => "else"@,
        TokenKind::Return => "return"@,
    }
}

/// The tag a scanned word is classified as: a keyword tag on an exact,
/// case-sensitive match against one of the seven keywords, and
/// `Identifier` otherwise.
pub open spec fn word_tag(w: Seq<char>) -> TokenTag {
    if w == "fn"@ {
        TokenTag::Function
    } else if w == "let"@ {
        TokenTag::Let
    } else if w == "true"@ {
        TokenTag::True
    } else if w == "false"@ {
        TokenTag::False
    } else if w == "if"@ {
        TokenTag::If
    } else if w == "else"@ {
        TokenTag::Else
    } else if w == "return"@ {
        TokenTag::Return
    } else {
        TokenTag::Identifier
    }
}

/// What `lookup_identifier` returns for a word: the keyword kind on an
/// exact match, and `Identifier` carrying the word itself otherwise.
pub open spec fn spec_lookup(w: Seq<char>, k: TokenKind) -> bool {
    if w == "fn"@ {
        k == TokenKind::Function
    } else if w == "let"@ {
        k == TokenKind::Let
    } else if w == "true"@ {
        k == TokenKind::True
    } else if w == "false"@ {
        k == TokenKind::False
    } else if w == "if"@ {
        k == TokenKind::If
    } else if w == "else"@ {
        k == TokenKind::Else
    } else if w == "return"@ {
        k == TokenKind::Return
    } else {
        k matches TokenKind::Identifier(s) && s@ == w
    }
}

/// The kind a word looks up to fits the word's tag, and renders as the
/// word itself (a matched keyword renders as exactly the matched text).
pub proof fn lemma_lookup_fits(w: Seq<char>, k: TokenKind)
    requires
        spec_lookup(w, k),
    ensures
        tag_of(k) == word_tag(w),
        spec_render(k) == w,
{
}

/// Keyword exactness: a word is classified as a keyword only on an exact,
/// case-sensitive match of the whole word, and as an identifier exactly
/// when it matches no keyword.
pub proof fn lemma_keyword_exactness(w: Seq<char>)
    ensures
        (word_tag(w) == TokenTag::Function) <==> (w == "fn"@),
        (word_tag(w) == TokenTag::Let) <==> (w == "let"@),
        (word_tag(w) == TokenTag::True) <==> (w == "true"@),
        (word_tag(w) == TokenTag::False) <==> (w == "false"@),
        (word_tag(w) == TokenTag::If) <==> (w == "if"@),
        (word_tag(w) == TokenTag::Else) <==> (w == "else"@),
        (word_tag(w) == TokenTag::Return) <==> (w == "return"@),
        (word_tag(w) == TokenTag::Identifier) <==> (w != "fn"@ && w != "let"@ && w != "true"@ && w
            != "false"@ && w != "if"@ && w != "else"@ && w != "return"@),
{
    reveal_strlit("fn");
    reveal_strlit("let");
    reveal_strlit("true");
    reveal_strlit("false");
    reveal_strlit("if");
    reveal_strlit("else");
    reveal_strlit("return");
    assert("fn"@[0] == 'f' && "if"@[0] == 'i');
    assert("true"@[0] == 't' && "else"@[0] == 'e');
    assert("fn"@.len() == 2 && "let"@.len() == 3 && "true"@.len() == 4 && "false"@.len() == 5
        && "if"@.len() == 2 && "else"@.len() == 4 && "return"@.len() == 6);
}

/// Compares two string slices character by character.
fn str_eq(a: &str, b: &str) -> (r: bool)
    ensures
        r == (a@ == b@),
{
    let alen: usize = a.unicode_len();
    let blen: usize = b.unicode_len();
    if alen != blen {
        return false;
    }
    let mut i: usize = 0;
    while i < alen
        invariant
            i <= alen,
            alen == a@.len(),
            alen == blen,
            blen == b@.len(),
            forall|j: int| 0 <= j < i ==> a@[j] == b@[j],
        decreases alen - i,
    {
        if a.get_char(i) != b.get_char(i) {
            return false;
        }
        i = i + 1;
    }
    proof {
        assert(a@ =~= b@);
    }
    true
}

/// Classifies a contiguous word: a keyword kind on an exact, case-sensitive
/// match against one of `fn`, `let`, `true`, `false`, `if`, `else`,
/// `return`, and `Identifier` carrying the word otherwise.
pub fn lookup_identifier(ident: &str) -> (k: TokenKind)
    ensures
        spec_lookup(ident@, k),
{
    if str_eq(ident, "fn") {
        TokenKind::Function
    } else if str_eq(ident, "let") {
        TokenKind::Let
    } else if str_eq(ident, "true") {
        TokenKind::True
    } else if str_eq(ident, "false") {
        TokenKind::False
    } else if str_eq(ident, "if") {
        TokenKind::If
    } else if str_eq(ident, "else") {
        TokenKind::Else
    } else if str_eq(ident, "return") {
        TokenKind::Return
    } else {
        TokenKind::Identifier(ident.to_owned())
    }
}

impl TokenKind {
    /// The canonical display text of this kind; see [`spec_render`].
    pub fn to_string(&self) -> (s: String)
        ensures
            s@ == spec_render(*self),
    {
        match self {
            TokenKind::Illegal => "Illegal".to_owned(),
            TokenKind::Eof => "Eof".to_owned(),
            TokenKind::Identifier(w) => w.clone(),
            TokenKind::Number(x) => x.clone(),
            TokenKind::Assign => "=".to_owned(),
            TokenKind::Plus => "+".to_owned(),
            TokenKind::Minus => "-".to_owned(),
            TokenKind::Bang => "!".to_owned(),
            TokenKind::Asterisk => "*".to_owned(),
            TokenKind::Slash => "/".to_owned(),
            TokenKind::Equal => "==".to_owned(),
            TokenKind::NotEqual => "!=".to_owned(),
            TokenKind::LessThan => "<".to_owned(),
            TokenKind::GreaterThan => ">".to_owned(),
            TokenKind::Comma => ",".to_owned(),
            TokenKind::Semicolon => ";".to_owned(),
            TokenKind::LParen => "(".to_owned(),
            TokenKind::RParen => ")".to_owned(),
            TokenKind::LBrace => "{".to_owned(),
            TokenKind::RBrace => "}".to_owned(),
            TokenKind::Function => "fn".to_owned(),
            TokenKind::Let => "let".to_owned(),
            TokenKind::True => "true".to_owned(),
            TokenKind::False => "false".to_owned(),
            TokenKind::If => "if".to_owned(),
            TokenKind::Else => "else".to_owned(),
            TokenKind::Return => "return".to_owned(),
        }
    }
}

/// An immutable token: a kind together with its literal display text,
/// fixed at construction.
pub struct Token {
    kind: TokenKind,
    literal: String,
}

impl Token {
    /// The kind this token was constructed with.
    pub closed spec fn spec_kind(&self) -> TokenKind {
        self.kind
    }

    /// The literal text this token carries.
    pub closed spec fn spec_literal(&self) -> Seq<char> {
        self.literal@
    }

    /// Builds a token from a kind; the literal is the kind's canonical
    /// display text.
    pub fn new(kind: TokenKind) -> (t: Token)
        ensures
            t.spec_kind() == kind,
            t.spec_literal() == spec_render(kind),
    {
        let literal = kind.to_string();
        Token { kind, literal }
    }

    /// Returns a copy of this token's kind.
    pub fn kind(&self) -> (k: TokenKind)
        ensures
            k == self.spec_kind(),
    {
        match &self.kind {
            TokenKind::Illegal => TokenKind::Illegal,
            TokenKind::Eof => TokenKind::Eof,
            TokenKind::Identifier(w) => TokenKind::Identifier(w.clone()),
            TokenKind::Number(x) => TokenKind::Number(x.clone()),
            TokenKind::Assign => TokenKind::Assign,
            TokenKind::Plus => TokenKind::Plus,
            TokenKind::Minus => TokenKind::Minus,
            TokenKind::Bang => TokenKind::Bang,
            TokenKind::Asterisk => TokenKind::Asterisk,
            TokenKind::Slash => TokenKind::Slash,
            TokenKind::Equal => TokenKind::Equal,
            TokenKind::NotEqual => TokenKind::NotEqual,
            TokenKind::LessThan => TokenKind::LessThan,
            TokenKind::GreaterThan => TokenKind::GreaterThan,
            TokenKind::Comma => TokenKind::Comma,
            TokenKind::Semicolon => TokenKind::Semicolon,
            TokenKind::LParen => TokenKind::LParen,
            TokenKind::RParen => TokenKind::RParen,
            TokenKind::LBrace => TokenKind::LBrace,
            TokenKind::RBrace => TokenKind::RBrace,
            TokenKind::Function => TokenKind::Function,
            TokenKind::Let => TokenKind::Let,
            TokenKind::True => TokenKind::True,
            TokenKind::False => TokenKind::False,
            TokenKind::If => TokenKind::If,
            TokenKind::Else => TokenKind::Else,
            TokenKind::Return => TokenKind::Return,
        }
    }

    /// The token's literal display text.
    pub fn literal(&self) -> (l: &str)
        ensures
            l@ == self.spec_literal(),
    {
        self.literal.as_str()
    }
}

} // verus!
