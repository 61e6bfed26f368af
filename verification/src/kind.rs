//! The spacing class of a command.
use crate::settings::SpokenCommand;
use crate::text;
use vstd::prelude::*;

verus! {

/// How the replacement of a command attaches to the text around it.
#[derive(Clone, Copy, Debug, PartialEq, Eq, Structural)]
pub enum Kind {
    /// `. ? ! …`: attach to the previous word, space after, capitalize next.
    SentenceEnd,
    /// `, ; :`: attach to the previous word, space after, no capital.
    Clause,
    /// `( [ {` and an opening quote: attach to the next word, no gap after.
    Open,
    /// `) ] }` and a closing quote: attach to the previous word, space after.
    Close,
    /// `- — /`: no space on either side.
    Tight,
    /// `\n` and `\n\n`: no spaces around, capitalize next.
    Break,
    /// `& @ $ % # *` and a tab: inserted as they are, symbols with one space on
    /// each side, a tab glued to the next word.
    Token,
}

impl Kind {
    /// The character that stands for this kind in marked text.
    pub open spec fn tag_char(self) -> char {
        match self {
            Kind::SentenceEnd => '0',
            Kind::Clause => '1',
            Kind::Open => '2',
            Kind::Close => '3',
            Kind::Tight => '4',
            Kind::Break => '5',
            Kind::Token => '6',
        }
    }

    /// The kind that a tag character stands for; any other character stands for
    /// `Token`.
    pub open spec fn of_tag(c: char) -> Kind {
        if c == '0' {
            Kind::SentenceEnd
        } else if c == '1' {
            Kind::Clause
        } else if c == '2' {
            Kind::Open
        } else if c == '3' {
            Kind::Close
        } else if c == '4' {
            Kind::Tight
        } else if c == '5' {
            Kind::Break
        } else {
            Kind::Token
        }
    }

    /// The tag of this kind.
    pub fn tag(self) -> (r: char)
        ensures
            r == self.tag_char(),
    {
        match self {
            Kind::SentenceEnd => '0',
            Kind::Clause => '1',
            Kind::Open => '2',
            Kind::Close => '3',
            Kind::Tight => '4',
            Kind::Break => '5',
            Kind::Token => '6',
        }
    }

    /// The kind of a tag.
    pub fn from_tag(c: char) -> (r: Kind)
        ensures
            r == Kind::of_tag(c),
    {
        match c {
            '0' => Kind::SentenceEnd,
            '1' => Kind::Clause,
            '2' => Kind::Open,
            '3' => Kind::Close,
            '4' => Kind::Tight,
            '5' => Kind::Break,
            _ => Kind::Token,
        }
    }
}

/// Reading a tag back gives the kind that it was written for.
pub proof fn law_tag_round_trip(kind: Kind)
    ensures
        Kind::of_tag(kind.tag_char()) == kind,
{
}

/// What `str::to_lowercase` returns: the Unicode lowercase form of the string.
pub uninterp spec fn lowercase(s: Seq<char>) -> Seq<char>;

/// `str::to_lowercase`: its result, named `lowercase`, rests on the string alone.
pub assume_specification[ str::to_lowercase ](s: &str) -> (r: String)
    ensures
        r@ == lowercase(s@),
;

/// The kind of a quotation mark whose phrase is `lowered` in lower case: the
/// word "close" makes it a closing one, else "open" an opening one.
pub open spec fn quote_kind_of(lowered: Seq<char>) -> Kind {
    if text::occurs_in(seq!['c', 'l', 'o', 's', 'e'], lowered) {
        Kind::Close
    } else if text::occurs_in(seq!['o', 'p', 'e', 'n'], lowered) {
        Kind::Open
    } else {
        Kind::Token
    }
}

/// True of a quotation mark.
pub open spec fn is_quote(c: char) -> bool {
    c == '"' || c == '\''
}

/// The kind of a command whose replacement is `replacement`, and whose phrase is
/// `lowered` in lower case.
pub open spec fn kind_of(replacement: Seq<char>, lowered: Seq<char>) -> Kind {
    if replacement.contains('\n') {
        Kind::Break
    } else if replacement.len() == 1 {
        let c = replacement[0];
        if c == '.' || c == '?' || c == '!' || c == '…' {
            Kind::SentenceEnd
        } else if c == ',' || c == ';' || c == ':' {
            Kind::Clause
        } else if c == '-' || c == '—' || c == '/' {
            Kind::Tight
        } else if c == '(' || c == '[' || c == '{' {
            Kind::Open
        } else if c == ')' || c == ']' || c == '}' {
            Kind::Close
        } else if is_quote(c) {
            quote_kind_of(lowered)
        } else {
            Kind::Token
        }
    } else {
        Kind::Token
    }
}

/// The phrase of a command makes a difference to its kind for a quotation mark
/// only.
pub proof fn law_phrase_matters_for_quotes_only(
    replacement: Seq<char>,
    one: Seq<char>,
    other: Seq<char>,
)
    requires
        !(replacement.len() == 1 && is_quote(replacement[0])),
    ensures
        kind_of(replacement, one) == kind_of(replacement, other),
{
}

/// The kind of a quotation mark, from its phrase in lower case.
pub fn quote_kind(lowered: &str) -> (r: Kind)
    ensures
        r == quote_kind_of(lowered@),
{
    proof {
        reveal_strlit("close");
        reveal_strlit("open");
        assert("close"@ =~= seq!['c', 'l', 'o', 's', 'e']);
        assert("open"@ =~= seq!['o', 'p', 'e', 'n']);
    }
    if text::contains(lowered, "close") {
        Kind::Close
    } else if text::contains(lowered, "open") {
        Kind::Open
    } else {
        Kind::Token
    }
}

/// The kind of a command, from its replacement and its phrase in lower case.
pub fn classify_lowered(replacement: &str, lowered: &str) -> (r: Kind)
    ensures
        r == kind_of(replacement@, lowered@),
{
    let chars = text::chars_of(replacement);
    for i in 0..chars.len()
        invariant
            chars@ == replacement@,
            forall|j: int| 0 <= j < i ==> #[trigger] replacement@[j] != '\n',
    {
        if chars[i] == '\n' {
            return Kind::Break;
        }
    }
    if chars.len() != 1 {
        return Kind::Token;
    }
    match chars[0] {
        '.' | '?' | '!' | '…' => Kind::SentenceEnd,
        ',' | ';' | ':' => Kind::Clause,
        '-' | '—' | '/' => Kind::Tight,
        '(' | '[' | '{' => Kind::Open,
        ')' | ']' | '}' => Kind::Close,
        '"' | '\'' => quote_kind(lowered),
        _ => Kind::Token,
    }
}

/// The kind of a command.
pub fn classify(cmd: &SpokenCommand) -> (r: Kind)
    ensures
        r == kind_of(cmd@.replacement, lowercase(cmd@.phrase)),
{
    let lowered = cmd.phrase.as_str().to_lowercase();
    classify_lowered(cmd.replacement.as_str(), lowered.as_str())
}

/// Which replacements are of which kind: one with a line feed anywhere breaks the
/// line, and of the others each kind but the last has its few characters; a
/// quotation mark opens or closes by its phrase, and all else is a token.
pub proof fn law_kinds_of_replacements(r: Seq<char>, lowered: Seq<char>)
    ensures
        kind_of(r, lowered) is Break <==> exists|i: int| 0 <= i < r.len() && #[trigger] r[i] == '\n',
        kind_of(r, lowered) is SentenceEnd <==> r == seq!['.'] || r == seq!['?'] || r == seq!['!']
            || r == seq!['…'],
        kind_of(r, lowered) is Clause <==> r == seq![','] || r == seq![';'] || r == seq![':'],
        kind_of(r, lowered) is Tight <==> r == seq!['-'] || r == seq!['—'] || r == seq!['/'],
        r == seq!['('] || r == seq!['['] || r == seq!['{'] ==> kind_of(r, lowered) is Open,
        r == seq![')'] || r == seq![']'] || r == seq!['}'] ==> kind_of(r, lowered) is Close,
        kind_of(r, lowered) is Open ==> r == seq!['('] || r == seq!['['] || r == seq!['{'] || r
            == seq!['"'] || r == seq!['\''],
        kind_of(r, lowered) is Close ==> r == seq![')'] || r == seq![']'] || r == seq!['}'] || r
            == seq!['"'] || r == seq!['\''],
{
    if r.len() == 1 {
        assert(r =~= seq![r[0]]);
        assert(seq!['.'][0] == '.' && seq!['?'][0] == '?' && seq!['!'][0] == '!' && seq!['…'][0]
            == '…' && seq![','][0] == ',' && seq![';'][0] == ';' && seq![':'][0] == ':'
            && seq!['-'][0] == '-' && seq!['—'][0] == '—' && seq!['/'][0] == '/' && seq!['('][0]
            == '(' && seq!['['][0] == '[' && seq!['{'][0] == '{' && seq![')'][0] == ')'
            && seq![']'][0] == ']' && seq!['}'][0] == '}' && seq!['"'][0] == '"' && seq!['\''][0]
            == '\'');
    }
}

/// Which way a quotation mark goes: with "close" anywhere in its phrase it closes;
/// without, and with "open" anywhere, it opens; without both it does neither.
pub proof fn law_quotes_by_their_phrase(
    q: char,
    a: Seq<char>,
    b: Seq<char>,
    lowered: Seq<char>,
)
    requires
        q == '"' || q == '\'',
    ensures
        kind_of(seq![q], a + seq!['c', 'l', 'o', 's', 'e'] + b) is Close,
        ({
            let no_close = forall|i: int|
                0 <= i <= lowered.len() - 5 ==> #[trigger] lowered.subrange(i, i + 5) != seq![
                    'c',
                    'l',
                    'o',
                    's',
                    'e',
                ];
            let no_open = forall|i: int|
                0 <= i <= lowered.len() - 4 ==> #[trigger] lowered.subrange(i, i + 4) != seq![
                    'o',
                    'p',
                    'e',
                    'n',
                ];
            &&& no_close && lowered == a + seq!['o', 'p', 'e', 'n'] + b ==> kind_of(
                seq![q],
                lowered,
            ) is Open
            &&& no_close && no_open ==> kind_of(seq![q], lowered) is Token
        }),
{
    let close = seq!['c', 'l', 'o', 's', 'e'];
    let open = seq!['o', 'p', 'e', 'n'];
    assert(close.len() == 5);
    assert(open.len() == 4);
    text::law_what_occurs(close, a, b, lowered);
    text::law_what_occurs(open, a, b, lowered);
    assert(seq![q][0] == q);
    assert(!seq![q].contains('\n'));
}

/// Tags are the digits from zero on, in the order of the kinds; whatever is no such
/// digit is read as a token.
pub proof fn law_tags_are_digits(c: char)
    ensures
        Kind::SentenceEnd.tag_char() == '0',
        Kind::Clause.tag_char() == '1',
        Kind::Open.tag_char() == '2',
        Kind::Close.tag_char() == '3',
        Kind::Tight.tag_char() == '4',
        Kind::Break.tag_char() == '5',
        Kind::Token.tag_char() == '6',
        c < '0' || c > '5' ==> Kind::of_tag(c) is Token,
        '0' <= c <= '5' ==> Kind::of_tag(c).tag_char() == c,
{
}

} // verus!
