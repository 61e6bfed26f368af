//! Turning marked text into finished text: spacing and capitals.
use crate::kind::Kind;
use crate::pattern;
use crate::pattern::{MARK_END, MARK_START};
use crate::text;
use vstd::prelude::*;

verus! {

/// A stretch of plain text, or a command with its replacement.
pub enum Piece {
    Text(Seq<char>),
    Cmd(Kind, Seq<char>),
}

/// The pieces of marked text, from left to right.
///
/// A mark that opens no command leaves text behind: where no kind follows it, all
/// that is left is kept once more as it stands; where it is never closed, what
/// follows the kind is kept.
pub open spec fn pieces(s: Seq<char>) -> Seq<Piece>
    decreases s.len(),
{
    let start = text::first_index(s, MARK_START) as int;
    let lead = if start > 0 {
        seq![Piece::Text(s.take(start))]
    } else {
        Seq::empty()
    };
    if start >= s.len() {
        if s.len() > 0 {
            seq![Piece::Text(s)]
        } else {
            Seq::empty()
        }
    } else if start + 1 == s.len() {
        lead.push(Piece::Text(s))
    } else {
        let body = s.skip(start + 2);
        let end = text::first_index(body, MARK_END) as int;
        if end < body.len() {
            lead.push(Piece::Cmd(Kind::of_tag(s[start + 1]), body.take(end))) + pieces(
                body.skip(end + 1),
            )
        } else {
            lead.push(Piece::Text(body))
        }
    }
}

/// A piece of marked text.
#[derive(Clone, Debug)]
pub enum Seg {
    Text(String),
    Cmd(Kind, String),
}

impl View for Seg {
    type V = Piece;

    open spec fn view(&self) -> Piece {
        match self {
            Seg::Text(s) => Piece::Text(s@),
            Seg::Cmd(k, s) => Piece::Cmd(*k, s@),
        }
    }
}

/// The pieces in a list.
pub open spec fn seg_pieces(segs: Seq<Seg>) -> Seq<Piece> {
    segs.map_values(|s: Seg| s@)
}

/// Takes marked text apart.
pub fn parse(marked: &str) -> (r: Vec<Seg>)
    ensures
        seg_pieces(r@) == pieces(marked@),
{
    let chars = text::chars_of(marked);
    let len: usize = chars.len();
    let mut segs: Vec<Seg> = Vec::new();
    let mut pos: usize = 0;
    let ghost s = marked@;
    assert(s.skip(0) =~= s);
    assert(seg_pieces(segs@) + pieces(s.skip(0)) =~= pieces(s));
    loop
        invariant
            chars@ == s,
            s == marked@,
            len == s.len(),
            pos <= len,
            seg_pieces(segs@) + pieces(s.skip(pos as int)) == pieces(s),
        decreases len - pos,
    {
        let ghost rest = s.skip(pos as int);
        let ghost done = seg_pieces(segs@);
        let start = text::find_from(chars.as_slice(), MARK_START, pos);
        if start == len {
            if pos < len {
                segs.push(Seg::Text(text::string_between(chars.as_slice(), pos, len)));
                assert(s.subrange(pos as int, len as int) =~= rest);
                assert(seg_pieces(segs@) =~= done + pieces(rest));
            } else {
                assert(pieces(rest) =~= Seq::empty());
                assert(done + pieces(rest) =~= done);
            }
            return segs;
        }
        let ghost lead = if start > pos {
            seq![Piece::Text(rest.take(start - pos))]
        } else {
            Seq::empty()
        };
        if start > pos {
            segs.push(Seg::Text(text::string_between(chars.as_slice(), pos, start)));
            assert(s.subrange(pos as int, start as int) =~= rest.take(start - pos));
        }
        assert(seg_pieces(segs@) =~= done + lead);
        if start + 1 == len {
            segs.push(Seg::Text(text::string_between(chars.as_slice(), pos, len)));
            assert(s.subrange(pos as int, len as int) =~= rest);
            assert(seg_pieces(segs@) =~= done + lead.push(Piece::Text(rest)));
            return segs;
        }
        let kind = Kind::from_tag(chars[start + 1]);
        let end = text::find_from(chars.as_slice(), MARK_END, start + 2);
        let ghost body = rest.skip(start - pos + 2);
        assert(body =~= s.skip(start + 2));
        if end < len {
            let payload = text::string_between(chars.as_slice(), start + 2, end);
            assert(payload@ =~= body.take(end - start - 2));
            segs.push(Seg::Cmd(kind, payload));
            pos = end + 1;
            assert(body.skip(end - start - 1) =~= s.skip(pos as int));
            assert(seg_pieces(segs@) =~= done + lead.push(
                Piece::Cmd(kind, body.take(end - start - 2)),
            ));
            assert(seg_pieces(segs@) + pieces(s.skip(pos as int)) =~= done + pieces(rest));
        } else {
            segs.push(Seg::Text(text::string_between(chars.as_slice(), start + 2, len)));
            assert(s.subrange(start + 2, len as int) =~= body);
            assert(seg_pieces(segs@) =~= done + lead.push(Piece::Text(body)));
            return segs;
        }
    }
}

/// Finished text so far, as a mathematical value.
pub struct Page {
    /// The text.
    pub out: Seq<char>,
    /// Whether the next letter of plain text is put in upper case.
    pub cap_next: bool,
    /// Whether the next piece follows without a space.
    pub glue: bool,
}

/// An empty page. The first letter on it will be a capital.
pub open spec fn empty_page() -> Page {
    Page { out: Seq::empty(), cap_next: true, glue: false }
}

/// True where `s` ends with `c`.
pub open spec fn ends_in(s: Seq<char>, c: char) -> bool {
    s.len() > 0 && s.last() == c
}

/// `s` with a space behind it where `wanted`.
pub open spec fn spaced(s: Seq<char>, wanted: bool) -> Seq<char> {
    if wanted {
        s.push(' ')
    } else {
        s
    }
}

/// The page with plain text behind it: `plain` is the text with its white space
/// collapsed, and `capital` the same text with its first letter in upper case,
/// where it has a letter.
pub open spec fn with_words(p: Page, plain: Seq<char>, capital: Option<Seq<char>>) -> Page {
    if plain.len() == 0 {
        p
    } else {
        let gap = p.out.len() > 0 && !p.glue && !ends_in(p.out, '\n');
        let written = match capital {
            Some(upper) => if p.cap_next {
                upper
            } else {
                plain
            },
            None => plain,
        };
        Page {
            out: spaced(p.out, gap) + written,
            cap_next: p.cap_next && capital is None,
            glue: false,
        }
    }
}

/// The page with a stretch of plain text behind it.
pub open spec fn with_text(p: Page, raw: Seq<char>) -> Page {
    let plain = text::normalized(raw);
    with_words(
        p,
        plain,
        if text::has_letter(plain) {
            Some(text::capitalized(plain))
        } else {
            None
        },
    )
}

/// The page with a command behind it.
pub open spec fn with_command(p: Page, kind: Kind, payload: Seq<char>) -> Page {
    let attached = text::without_trailing_blanks(p.out) + payload;
    let gap = p.out.len() > 0 && !p.glue && !ends_in(p.out, ' ') && !ends_in(p.out, '\t')
        && !ends_in(p.out, '\n');
    let apart = spaced(p.out, gap) + payload;
    match kind {
        Kind::SentenceEnd => Page { out: attached, cap_next: true, glue: false },
        Kind::Break => Page { out: attached, cap_next: true, glue: false },
        Kind::Clause => Page { out: attached, cap_next: p.cap_next, glue: false },
        Kind::Close => Page { out: attached, cap_next: p.cap_next, glue: false },
        Kind::Tight => Page { out: attached, cap_next: p.cap_next, glue: true },
        Kind::Open => Page { out: apart, cap_next: p.cap_next, glue: true },
        Kind::Token => if payload == seq!['\t'] {
            Page { out: attached, cap_next: p.cap_next, glue: true }
        } else {
            Page { out: apart, cap_next: p.cap_next, glue: false }
        },
    }
}

/// The page with a piece behind it.
pub open spec fn with_piece(p: Page, piece: Piece) -> Page {
    match piece {
        Piece::Text(raw) => with_text(p, raw),
        Piece::Cmd(kind, payload) => with_command(p, kind, payload),
    }
}

/// The page with the pieces behind it, one after the other.
pub open spec fn with_pieces(p: Page, list: Seq<Piece>) -> Page
    decreases list.len(),
{
    if list.len() == 0 {
        p
    } else {
        with_piece(with_pieces(p, list.drop_last()), list.last())
    }
}

/// The finished text for marked text: its pieces set one after the other on an
/// empty page, without white space at the start or blanks at the end.
pub open spec fn rendered(marked: Seq<char>) -> Seq<char> {
    text::trimmed(with_pieces(empty_page(), pieces(marked)).out)
}

/// Finished text so far.
pub struct Sheet {
    pub out: String,
    pub cap_next: bool,
    pub glue: bool,
}

impl View for Sheet {
    type V = Page;

    open spec fn view(&self) -> Page {
        Page { out: self.out@, cap_next: self.cap_next, glue: self.glue }
    }
}

impl Sheet {
    /// An empty sheet.
    pub fn new() -> (r: Sheet)
        ensures
            r@ == empty_page(),
    {
        Sheet { out: String::new(), cap_next: true, glue: false }
    }

    /// Adds plain text whose white space is collapsed. `capital` is the same text
    /// with its first letter in upper case, where it has a letter.
    pub fn add_words(&mut self, plain: &str, capital: Option<&str>)
        ensures
            final(self)@ == with_words(
                old(self)@,
                plain@,
                match capital {
                    Some(upper) => Some(upper@),
                    None => None,
                },
            ),
    {
        if plain.is_empty() {
            return ;
        }
        if !self.out.as_str().is_empty() && !self.glue && !text::ends_with_ascii(
            self.out.as_str(),
            '\n' as u8,
        ) {
            self.out.push(' ');
        }
        self.glue = false;
        match capital {
            Some(upper) => {
                if self.cap_next {
                    self.out.append(upper);
                    self.cap_next = false;
                } else {
                    self.out.append(plain);
                }
            },
            None => {
                self.out.append(plain);
            },
        }
    }

    /// Adds a stretch of plain text. At the start of a sheet it has clean edges,
    /// and it brings in no mark that it does not hold.
    pub fn add_text(&mut self, raw: &str)
        ensures
            final(self)@ == with_text(old(self)@, raw@),
            old(self)@ == empty_page() ==> text::clean_edges(final(self)@.out),
            pattern::mark_free(old(self)@.out) && pattern::mark_free(raw@) ==> pattern::mark_free(
                final(self)@.out,
            ),
    {
        let plain = text::normalize(raw);
        proof {
            text::lemma_normalized_edges(raw@);
            text::lemma_normalized_is_made_of(raw@);
            lemma_mark_free_part(raw@, plain@);
        }
        match text::find_letter(plain.as_str()) {
            Some(_) => {
                let upper = text::capitalize_first(plain.as_str());
                proof {
                    assert forall|i: int|
                        0 <= i < upper@.len() && text::private_use(
                            #[trigger] upper@[i],
                        ) implies plain@.contains(upper@[i]) by {
                        assert(upper@.contains(upper@[i]));
                    }
                    lemma_mark_free_part(plain@, upper@);
                }
                self.add_words(plain.as_str(), Some(upper.as_str()));
            },
            None => {
                self.add_words(plain.as_str(), None);
            },
        }
    }

    /// Adds `payload` directly behind the last character that is no blank.
    fn attach(&mut self, payload: &str)
        ensures
            final(self)@ == (Page {
                out: text::without_trailing_blanks(old(self)@.out) + payload@,
                ..old(self)@
            }),
    {
        text::trim_trailing_spaces(&mut self.out);
        self.out.append(payload);
    }

    /// Adds `payload` with a space before it, unless there is a gap already or
    /// none is wanted.
    fn set_apart(&mut self, payload: &str)
        ensures
            final(self)@ == (Page {
                out: spaced(
                    old(self)@.out,
                    old(self)@.out.len() > 0 && !old(self)@.glue && !ends_in(old(self)@.out, ' ')
                        && !ends_in(old(self)@.out, '\t') && !ends_in(old(self)@.out, '\n'),
                ) + payload@,
                ..old(self)@
            }),
    {
        if !self.out.as_str().is_empty() && !self.glue && !text::ends_with_space_or_newline(
            self.out.as_str(),
        ) {
            self.out.push(' ');
        }
        self.out.append(payload);
    }

    /// Adds a command.
    pub fn add_command(&mut self, kind: Kind, payload: &str)
        ensures
            final(self)@ == with_command(old(self)@, kind, payload@),
    {
        match kind {
            Kind::SentenceEnd | Kind::Break => {
                self.attach(payload);
                self.cap_next = true;
                self.glue = false;
            },
            Kind::Clause | Kind::Close => {
                self.attach(payload);
                self.glue = false;
            },
            Kind::Open => {
                self.set_apart(payload);
                self.glue = true;
            },
            Kind::Tight => {
                self.attach(payload);
                self.glue = true;
            },
            Kind::Token => {
                let chars = text::chars_of(payload);
                if chars.len() == 1 && chars[0] == '\t' {
                    assert(payload@ =~= seq!['\t']);
                    self.attach(payload);
                    self.glue = true;
                } else {
                    self.set_apart(payload);
                    self.glue = false;
                }
            },
        }
    }

    /// Adds a piece. It brings in no mark that it does not hold, and plain text at
    /// the start of a sheet has clean edges.
    pub fn add(&mut self, seg: &Seg)
        ensures
            final(self)@ == with_piece(old(self)@, seg@),
            old(self)@ == empty_page() && seg@ is Text ==> text::clean_edges(final(self)@.out),
            pattern::mark_free(old(self)@.out) && mark_free_piece(seg@) ==> pattern::mark_free(
                final(self)@.out,
            ),
    {
        match seg {
            Seg::Text(raw) => {
                self.add_text(raw.as_str());
            },
            Seg::Cmd(kind, payload) => {
                proof {
                    lemma_mark_free_command(self@, *kind, payload@);
                }
                self.add_command(*kind, payload.as_str());
            },
        }
    }
}

/// True where the piece holds no mark.
pub open spec fn mark_free_piece(piece: Piece) -> bool {
    match piece {
        Piece::Text(raw) => pattern::mark_free(raw),
        Piece::Cmd(_, payload) => pattern::mark_free(payload),
    }
}

/// True where no piece of marked text holds a mark: its marks come in pairs round
/// commands.
pub open spec fn mark_free_pieces(list: Seq<Piece>) -> bool {
    forall|k: int| 0 <= k < list.len() ==> mark_free_piece(#[trigger] list[k])
}

/// Where all private-use characters of `t` come from `s`, and `s` holds no mark,
/// `t` holds none.
proof fn lemma_mark_free_part(s: Seq<char>, t: Seq<char>)
    requires
        forall|i: int|
            0 <= i < t.len() && text::private_use(#[trigger] t[i]) ==> s.contains(t[i]),
    ensures
        pattern::mark_free(s) ==> pattern::mark_free(t),
{
}

/// A command brings in no mark that it does not hold.
proof fn lemma_mark_free_command(p: Page, kind: Kind, payload: Seq<char>)
    ensures
        pattern::mark_free(p.out) && pattern::mark_free(payload) ==> pattern::mark_free(
            with_command(p, kind, payload).out,
        ),
{
    text::lemma_no_trailing_blanks(p.out);
}

/// Sets marked text: each command attaches to the text around it as its kind
/// asks, plain text has its white space collapsed, and sentences start with a
/// capital.
///
/// Text without marks is kept as it is but for its white space and its first
/// letter: punctuation that a transcript already holds is not touched. No mark is
/// left of marked text whose marks come in pairs round commands.
pub fn render(marked: &str) -> (r: String)
    ensures
        r@ == rendered(marked@),
        free_of(marked@, MARK_START) ==> r@ == text::capitalized(text::normalized(marked@)),
        mark_free_pieces(pieces(marked@)) ==> pattern::mark_free(r@),
{
    let segs = parse(marked);
    let mut sheet = Sheet::new();
    let ghost all = pieces(marked@);
    assert(all.take(0) =~= Seq::empty());
    for i in 0..segs.len()
        invariant
            seg_pieces(segs@) == all,
            sheet@ == with_pieces(empty_page(), all.take(i as int)),
            i == 1 && all[0] is Text ==> text::clean_edges(sheet@.out),
            mark_free_pieces(all) ==> pattern::mark_free(sheet@.out),
    {
        proof {
            assert(all[i as int] == segs@[i as int]@);
            assert(all.take(i + 1).drop_last() =~= all.take(i as int));
            assert(all.take(i + 1).last() == segs@[i as int]@);
        }
        sheet.add(&segs[i]);
    }
    assert(all.take(all.len() as int) =~= all);
    proof {
        if free_of(marked@, MARK_START) {
            lemma_unmarked_pieces(marked@);
            lemma_unmarked_text(marked@);
            text::law_clean_text_is_kept(sheet@.out);
        }
        text::lemma_trimmed_is_made_of(sheet@.out);
    }
    text::trim(sheet.out.as_str())
}

/// True where `c` does not occur in `s`.
pub open spec fn free_of(s: Seq<char>, c: char) -> bool {
    forall|i: int| 0 <= i < s.len() ==> #[trigger] s[i] != c
}

/// The piece that a stretch of plain text is, or none where it is empty.
pub open spec fn text_piece(s: Seq<char>) -> Seq<Piece> {
    if s.len() > 0 {
        seq![Piece::Text(s)]
    } else {
        Seq::empty()
    }
}

/// A marked command is read back as it was written: with its kind, and with its
/// replacement character for character, whatever that holds but the closing mark.
pub proof fn law_marker_is_read_back(
    before: Seq<char>,
    kind: Kind,
    payload: Seq<char>,
    after: Seq<char>,
)
    requires
        free_of(before, MARK_START),
        free_of(payload, MARK_END),
    ensures
        pieces(before + pattern::marker(kind, payload) + after) == text_piece(before).push(
            Piece::Cmd(kind, payload),
        ) + pieces(after),
{
    let s = before + pattern::marker(kind, payload) + after;
    let start = before.len() as int;
    assert forall|j: int| 0 <= j < start implies #[trigger] s[j] != MARK_START by {
        assert(s[j] == before[j]);
    }
    assert(s[start] == MARK_START);
    text::lemma_first_index(s, MARK_START, start);
    assert(s[start + 1] == kind.tag_char());
    let body = s.skip(start + 2);
    assert(body =~= payload + seq![MARK_END] + after);
    let end = payload.len() as int;
    assert forall|j: int| 0 <= j < end implies #[trigger] body[j] != MARK_END by {
        assert(body[j] == payload[j]);
    }
    assert(body[end] == MARK_END);
    text::lemma_first_index(body, MARK_END, end);
    assert(s.take(start) =~= before);
    assert(body.take(end) =~= payload);
    assert(body.skip(end + 1) =~= after);
}

/// The pieces of unmarked text are that text.
proof fn lemma_unmarked_pieces(s: Seq<char>)
    requires
        free_of(s, MARK_START),
    ensures
        pieces(s) == text_piece(s),
{
    text::lemma_first_index(s, MARK_START, s.len() as int);
}

/// Setting two lists of pieces one after the other is setting the whole.
pub proof fn law_pieces_in_turn(p: Page, first: Seq<Piece>, second: Seq<Piece>)
    ensures
        with_pieces(p, first + second) == with_pieces(with_pieces(p, first), second),
    decreases second.len(),
{
    if second.len() == 0 {
        assert(first + second =~= first);
    } else {
        assert((first + second).drop_last() =~= first + second.drop_last());
        law_pieces_in_turn(p, first, second.drop_last());
    }
}

proof fn lemma_one_piece(p: Page, piece: Piece)
    ensures
        with_pieces(p, seq![piece]) == with_piece(p, piece),
{
    assert(seq![piece].drop_last() =~= Seq::empty());
    assert(with_pieces(p, seq![piece].drop_last()) == p);
}

/// Setting a stretch of plain text, empty or not.
proof fn lemma_text_piece(p: Page, s: Seq<char>)
    ensures
        with_pieces(p, text_piece(s)) == with_text(p, s),
{
    if s.len() > 0 {
        lemma_one_piece(p, Piece::Text(s));
    } else {
        assert(text::words(s) =~= Seq::empty());
    }
}

/// On an empty page, text without marks is its words, the first letter in upper
/// case.
proof fn lemma_unmarked_text(s: Seq<char>)
    requires
        free_of(s, MARK_START),
    ensures
        with_pieces(empty_page(), pieces(s)).out == text::capitalized(text::normalized(s)),
{
    lemma_unmarked_pieces(s);
    lemma_text_piece(empty_page(), s);
    assert(Seq::<char>::empty() + text::capitalized(text::normalized(s)) =~= text::capitalized(
        text::normalized(s),
    ));
    assert(Seq::<char>::empty() + text::normalized(s) =~= text::normalized(s));
    if text::normalized(s).len() == 0 {
        assert(text::capitalized(text::normalized(s)) =~= Seq::empty());
    }
}

/// Finished text does not start with white space, nor end with a space or a tab.
pub proof fn law_clean_edges(marked: Seq<char>)
    ensures
        text::clean_edges(rendered(marked)),
{
    text::law_trimmed_edges(with_pieces(empty_page(), pieces(marked)).out);
}

/// A command between two stretches of plain text is set between them.
pub proof fn law_command_between_texts(
    before: Seq<char>,
    kind: Kind,
    payload: Seq<char>,
    after: Seq<char>,
)
    requires
        free_of(before, MARK_START),
        free_of(payload, MARK_END),
        free_of(after, MARK_START),
    ensures
        rendered(before + pattern::marker(kind, payload) + after) == text::trimmed(
            with_text(
                with_command(with_text(empty_page(), before), kind, payload),
                after,
            ).out,
        ),
{
    law_marker_is_read_back(before, kind, payload, after);
    lemma_unmarked_pieces(after);
    let cmd = Piece::Cmd(kind, payload);
    let p = empty_page();
    assert(text_piece(before).push(cmd) =~= text_piece(before) + seq![cmd]);
    law_pieces_in_turn(p, text_piece(before) + seq![cmd], text_piece(after));
    law_pieces_in_turn(p, text_piece(before), seq![cmd]);
    lemma_text_piece(p, before);
    lemma_one_piece(with_text(p, before), cmd);
    lemma_text_piece(with_command(with_text(p, before), kind, payload), after);
}

/// White space at the start of marked text makes no difference.
proof fn lemma_leading_space(p: Page, space: Seq<char>, s: Seq<char>)
    requires
        text::blank(space),
    ensures
        with_pieces(p, pieces(space + s)) == with_pieces(p, pieces(s)),
{
    let all = space + s;
    let none = Seq::<char>::empty();
    let start = text::first_index(s, MARK_START) as int;
    let n = space.len() as int;
    text::lemma_first_index_is(s, MARK_START);
    assert forall|j: int| 0 <= j < n + start implies #[trigger] all[j] != MARK_START by {
        if j < n {
            assert(text::white_space(space[j]));
        } else {
            assert(all[j] == s[j - n]);
        }
    }
    text::lemma_first_index(all, MARK_START, n + start);
    let lead = s.take(start);
    assert(all.take(n + start) =~= space + lead);
    lemma_same_words(p, space, lead, none);
    lemma_text_piece(p, lead);
    lemma_text_piece(p, space + lead);
    assert(space + lead + none =~= space + lead);
    if start >= s.len() {
        assert(lead =~= s);
        assert(pieces(all) =~= text_piece(all));
        assert(pieces(s) =~= text_piece(s));
        assert(all =~= space + lead);
    } else if start + 1 == s.len() {
        let q = with_text(p, lead);
        assert(pieces(all) =~= text_piece(space + lead) + seq![Piece::Text(all)]);
        assert(pieces(s) =~= text_piece(lead) + seq![Piece::Text(s)]);
        law_pieces_in_turn(p, text_piece(space + lead), seq![Piece::Text(all)]);
        law_pieces_in_turn(p, text_piece(lead), seq![Piece::Text(s)]);
        lemma_one_piece(q, Piece::Text(all));
        lemma_one_piece(q, Piece::Text(s));
        lemma_same_words(q, space, s, none);
        assert(space + s + none =~= all);
    } else {
        let body = s.skip(start + 2);
        assert(all.skip(n + start + 2) =~= body);
        assert(all[n + start + 1] == s[start + 1]);
        let end = text::first_index(body, MARK_END) as int;
        let tail = if end < body.len() {
            seq![Piece::Cmd(Kind::of_tag(s[start + 1]), body.take(end))] + pieces(
                body.skip(end + 1),
            )
        } else {
            seq![Piece::Text(body)]
        };
        assert(pieces(all) =~= text_piece(space + lead) + tail);
        assert(pieces(s) =~= text_piece(lead) + tail);
        law_pieces_in_turn(p, text_piece(space + lead), tail);
        law_pieces_in_turn(p, text_piece(lead), tail);
    }
}

proof fn lemma_same_words(p: Page, left: Seq<char>, s: Seq<char>, right: Seq<char>)
    requires
        text::blank(left),
        text::blank(right),
    ensures
        with_text(p, left + s + right) == with_text(p, s),
{
    text::law_outer_white_space(left, s, right);
}

/// White space beside a command never matters, whatever is on the page before it
/// and whatever follows.
pub proof fn law_white_space_beside_a_command(
    p: Page,
    before: Seq<char>,
    left: Seq<char>,
    kind: Kind,
    payload: Seq<char>,
    right: Seq<char>,
    after: Seq<char>,
)
    requires
        free_of(before, MARK_START),
        free_of(payload, MARK_END),
        text::blank(left),
        text::blank(right),
    ensures
        with_pieces(
            p,
            pieces((before + left) + pattern::marker(kind, payload) + (right + after)),
        ) == with_pieces(p, pieces(before + pattern::marker(kind, payload) + after)),
        rendered((before + left) + pattern::marker(kind, payload) + (right + after)) == rendered(
            before + pattern::marker(kind, payload) + after,
        ),
{
    lemma_white_space_beside(p, before, left, kind, payload, right, after);
    lemma_white_space_beside(empty_page(), before, left, kind, payload, right, after);
}

proof fn lemma_white_space_beside(
    p: Page,
    before: Seq<char>,
    left: Seq<char>,
    kind: Kind,
    payload: Seq<char>,
    right: Seq<char>,
    after: Seq<char>,
)
    requires
        free_of(before, MARK_START),
        free_of(payload, MARK_END),
        text::blank(left),
        text::blank(right),
    ensures
        with_pieces(
            p,
            pieces((before + left) + pattern::marker(kind, payload) + (right + after)),
        ) == with_pieces(p, pieces(before + pattern::marker(kind, payload) + after)),
{
    let cmd = Piece::Cmd(kind, payload);
    let none = Seq::<char>::empty();
    let wide = before + left;
    assert forall|i: int| 0 <= i < wide.len() implies #[trigger] wide[i] != MARK_START by {
        if i < before.len() {
            assert(wide[i] == before[i]);
        } else {
            assert(text::white_space(left[i - before.len()]));
        }
    }
    law_marker_is_read_back(before, kind, payload, after);
    law_marker_is_read_back(wide, kind, payload, right + after);
    assert(text_piece(before).push(cmd) =~= text_piece(before) + seq![cmd]);
    assert(text_piece(wide).push(cmd) =~= text_piece(wide) + seq![cmd]);
    law_pieces_in_turn(p, text_piece(before) + seq![cmd], pieces(after));
    law_pieces_in_turn(p, text_piece(wide) + seq![cmd], pieces(right + after));
    law_pieces_in_turn(p, text_piece(before), seq![cmd]);
    law_pieces_in_turn(p, text_piece(wide), seq![cmd]);
    lemma_text_piece(p, before);
    lemma_text_piece(p, wide);
    lemma_same_words(p, none, before, left);
    assert(none + before + left =~= wide);
    lemma_leading_space(
        with_pieces(p, text_piece(before) + seq![cmd]),
        right,
        after,
    );
}

/// How plain text is written on a page: with its first letter in upper case where
/// the page asks for a capital, else as it is.
pub open spec fn written(p: Page, raw: Seq<char>) -> Seq<char> {
    if p.cap_next {
        text::capitalized(text::normalized(raw))
    } else {
        text::normalized(raw)
    }
}

/// Plain text is kept: behind what is on the page, at most one space, and then its
/// words with single spaces between them, the first letter in upper case where
/// the page asks for it. Nothing else in it changes.
pub proof fn law_text_is_kept(p: Page, raw: Seq<char>)
    requires
        !text::blank(raw),
    ensures
        with_text(p, raw).out == spaced(
            p.out,
            p.out.len() > 0 && !p.glue && !ends_in(p.out, '\n'),
        ) + written(p, raw),
        with_text(p, raw).cap_next == (p.cap_next && !text::has_letter(text::normalized(raw))),
        !with_text(p, raw).glue,
        text::words(text::normalized(raw)) == text::words(raw),
{
    text::law_normalizing_keeps_words(raw);
    text::lemma_blank_has_no_words(raw);
    text::lemma_blank_has_no_words(text::normalized(raw));
    assert(text::normalized(raw).len() > 0);
}

/// White space alone leaves the page as it is.
pub proof fn law_blank_text_is_nothing(p: Page, raw: Seq<char>)
    requires
        text::blank(raw),
    ensures
        with_text(p, raw) == p,
{
    text::lemma_blank_has_no_words(raw);
}

/// The end of a sentence attaches to what is before it, and the next text follows
/// behind one space and starts with a capital.
pub proof fn law_sentence_end(p: Page, mark: Seq<char>, raw: Seq<char>)
    requires
        mark.len() > 0,
        mark.last() != '\n',
        !text::blank(raw),
    ensures
        with_text(with_command(p, Kind::SentenceEnd, mark), raw).out
            == text::without_trailing_blanks(p.out) + mark + seq![' '] + text::capitalized(
            text::normalized(raw),
        ),
{
    let q = with_command(p, Kind::SentenceEnd, mark);
    law_text_is_kept(q, raw);
    assert(q.out.last() == mark.last());
    assert(q.out.push(' ') =~= q.out + seq![' ']);
}

/// A comma and its like, or a closing bracket, attach to what is before them; the
/// next text follows behind one space, with a capital only where one was due
/// already.
pub proof fn law_clause_and_close(p: Page, kind: Kind, mark: Seq<char>, raw: Seq<char>)
    requires
        kind == Kind::Clause || kind == Kind::Close,
        mark.len() > 0,
        mark.last() != '\n',
        !text::blank(raw),
    ensures
        with_text(with_command(p, kind, mark), raw).out == text::without_trailing_blanks(p.out)
            + mark + seq![' '] + written(p, raw),
{
    let q = with_command(p, kind, mark);
    law_text_is_kept(q, raw);
    assert(q.out.last() == mark.last());
    assert(q.out.push(' ') =~= q.out + seq![' ']);
}

/// An opening bracket has the next text follow directly.
pub proof fn law_open_wraps_tightly(p: Page, mark: Seq<char>, raw: Seq<char>)
    requires
        !text::blank(raw),
    ensures
        with_text(with_command(p, Kind::Open, mark), raw).out == with_command(
            p,
            Kind::Open,
            mark,
        ).out + written(p, raw),
{
    law_text_is_kept(with_command(p, Kind::Open, mark), raw);
}

/// A hyphen and its like glue what is before them to what is behind.
pub proof fn law_tight_glues_both_sides(p: Page, mark: Seq<char>, raw: Seq<char>)
    requires
        !text::blank(raw),
    ensures
        with_text(with_command(p, Kind::Tight, mark), raw).out == text::without_trailing_blanks(
            p.out,
        ) + mark + written(p, raw),
{
    law_text_is_kept(with_command(p, Kind::Tight, mark), raw);
}

/// A line break has no spaces around it, and the next text starts with a capital.
pub proof fn law_break(p: Page, mark: Seq<char>, raw: Seq<char>)
    requires
        ends_in(mark, '\n'),
        !text::blank(raw),
    ensures
        with_text(with_command(p, Kind::Break, mark), raw).out == text::without_trailing_blanks(
            p.out,
        ) + mark + text::capitalized(text::normalized(raw)),
{
    let q = with_command(p, Kind::Break, mark);
    law_text_is_kept(q, raw);
    assert(q.out.last() == mark.last());
}

/// A symbol stands between single spaces.
pub proof fn law_symbol_is_padded(p: Page, mark: Seq<char>, raw: Seq<char>)
    requires
        mark.len() > 0,
        mark != seq!['\t'],
        mark.last() != '\n',
        p.out.len() > 0,
        !p.glue,
        !ends_in(p.out, ' ') && !ends_in(p.out, '\t') && !ends_in(p.out, '\n'),
        !text::blank(raw),
    ensures
        with_text(with_command(p, Kind::Token, mark), raw).out == p.out + seq![' '] + mark
            + seq![' '] + written(p, raw),
{
    let q = with_command(p, Kind::Token, mark);
    law_text_is_kept(q, raw);
    assert(q.out =~= p.out + seq![' '] + mark);
    assert(q.out.last() == mark.last());
    assert(q.out.push(' ') =~= q.out + seq![' ']);
}

/// A tab attaches to what is before it and to what is behind.
pub proof fn law_tab_glues(p: Page, raw: Seq<char>)
    requires
        !text::blank(raw),
    ensures
        with_text(with_command(p, Kind::Token, seq!['\t']), raw).out
            == text::without_trailing_blanks(p.out) + seq!['\t'] + written(p, raw),
{
    law_text_is_kept(with_command(p, Kind::Token, seq!['\t']), raw);
}

/// Text without an opening mark is one piece, or none where it is empty.
pub proof fn law_pieces_of_unmarked_text(s: Seq<char>)
    requires
        forall|i: int| 0 <= i < s.len() ==> #[trigger] s[i] != '\u{E000}',
    ensures
        s.len() > 0 ==> pieces(s) == seq![Piece::Text(s)],
        s.len() == 0 ==> pieces(s).len() == 0,
{
    lemma_unmarked_pieces(s);
}

/// A command in marked text: what stands before it is a piece of text, where it is
/// not empty; the character behind the opening mark tells the kind; what follows up
/// to the closing mark is the replacement; and the rest is read on its own.
pub proof fn law_pieces_of_marked_text(
    before: Seq<char>,
    tag: char,
    payload: Seq<char>,
    after: Seq<char>,
)
    requires
        forall|i: int| 0 <= i < before.len() ==> #[trigger] before[i] != '\u{E000}',
        forall|i: int| 0 <= i < payload.len() ==> #[trigger] payload[i] != '\u{E001}',
    ensures
        ({
            let s = before + seq!['\u{E000}', tag] + payload + seq!['\u{E001}'] + after;
            let cmd = Piece::Cmd(Kind::of_tag(tag), payload);
            &&& before.len() > 0 ==> pieces(s) == seq![Piece::Text(before), cmd] + pieces(after)
            &&& before.len() == 0 ==> pieces(s) == seq![cmd] + pieces(after)
        }),
{
    let s = before + seq!['\u{E000}', tag] + payload + seq!['\u{E001}'] + after;
    let start = before.len() as int;
    assert forall|j: int| 0 <= j < start implies #[trigger] s[j] != MARK_START by {
        assert(s[j] == before[j]);
    }
    assert(s[start] == MARK_START);
    text::lemma_first_index(s, MARK_START, start);
    assert(s[start + 1] == tag);
    let body = s.skip(start + 2);
    assert(body =~= payload + seq![MARK_END] + after);
    let end = payload.len() as int;
    assert forall|j: int| 0 <= j < end implies #[trigger] body[j] != MARK_END by {
        assert(body[j] == payload[j]);
    }
    assert(body[end] == MARK_END);
    text::lemma_first_index(body, MARK_END, end);
    assert(s.take(start) =~= before);
    assert(body.take(end) =~= payload);
    assert(body.skip(end + 1) =~= after);
    let cmd = Piece::Cmd(Kind::of_tag(tag), payload);
    if start > 0 {
        assert(seq![Piece::Text(before)].push(cmd) =~= seq![Piece::Text(before), cmd]);
    } else {
        assert(Seq::<Piece>::empty().push(cmd) =~= seq![cmd]);
    }
}

/// An opening mark that opens no command: at the very end it leaves the text as it
/// stands, mark and all, behind what comes before it; where it is not closed, what
/// stands behind the character that follows it is text.
pub proof fn law_pieces_of_broken_text(before: Seq<char>, tag: char, rest: Seq<char>)
    requires
        forall|i: int| 0 <= i < before.len() ==> #[trigger] before[i] != '\u{E000}',
        forall|i: int| 0 <= i < rest.len() ==> #[trigger] rest[i] != '\u{E001}',
    ensures
        before.len() > 0 ==> pieces(before + seq!['\u{E000}']) == seq![
            Piece::Text(before),
            Piece::Text(before + seq!['\u{E000}']),
        ],
        before.len() == 0 ==> pieces(before + seq!['\u{E000}']) == seq![
            Piece::Text(before + seq!['\u{E000}']),
        ],
        before.len() > 0 ==> pieces(before + seq!['\u{E000}', tag] + rest) == seq![
            Piece::Text(before),
            Piece::Text(rest),
        ],
        before.len() == 0 ==> pieces(before + seq!['\u{E000}', tag] + rest) == seq![
            Piece::Text(rest),
        ],
{
    let start = before.len() as int;
    let s = before + seq!['\u{E000}'];
    assert forall|j: int| 0 <= j < start implies #[trigger] s[j] != MARK_START by {
        assert(s[j] == before[j]);
    }
    assert(s[start] == MARK_START);
    text::lemma_first_index(s, MARK_START, start);
    assert(s.take(start) =~= before);
    let t = before + seq!['\u{E000}', tag] + rest;
    assert forall|j: int| 0 <= j < start implies #[trigger] t[j] != MARK_START by {
        assert(t[j] == before[j]);
    }
    assert(t[start] == MARK_START);
    text::lemma_first_index(t, MARK_START, start);
    assert(t.take(start) =~= before);
    let body = t.skip(start + 2);
    assert(body =~= rest);
    text::lemma_first_index(body, MARK_END, body.len() as int);
    if start > 0 {
        let lead = seq![Piece::Text(before)];
        assert(lead.push(Piece::Text(s)) =~= seq![Piece::Text(before), Piece::Text(s)]);
        assert(lead.push(Piece::Text(rest)) =~= seq![Piece::Text(before), Piece::Text(rest)]);
    } else {
        let none = Seq::<Piece>::empty();
        assert(none.push(Piece::Text(s)) =~= seq![Piece::Text(s)]);
        assert(none.push(Piece::Text(rest)) =~= seq![Piece::Text(rest)]);
    }
}

/// What plain text does to a page. White space alone does nothing. Else the text
/// follows, its words with single spaces between them, behind a space where the page
/// is not empty, not glued and not at the start of a line; where the page asks for a
/// capital the first letter is one, and the page goes on asking only where there was
/// no letter.
pub proof fn law_what_text_does(p: Page, raw: Seq<char>)
    ensures
        ({
            let plain = text::normalized(raw);
            let q = with_text(p, raw);
            let shown = if p.cap_next {
                text::capitalized(plain)
            } else {
                plain
            };
            &&& plain.len() == 0 ==> q == p
            &&& plain.len() > 0 ==> {
                &&& p.out.len() == 0 || p.glue || p.out[p.out.len() - 1] == '\n' ==> q.out == p.out
                    + shown
                &&& p.out.len() > 0 && !p.glue && p.out[p.out.len() - 1] != '\n' ==> q.out == p.out
                    + seq![' '] + shown
                &&& !q.glue
                &&& q.cap_next <==> p.cap_next && forall|i: int|
                    0 <= i < plain.len() ==> !text::alphabetic(#[trigger] plain[i])
            }
        }),
{
    let plain = text::normalized(raw);
    assert(p.out.push(' ') =~= p.out + seq![' ']);
    if forall|i: int| 0 <= i < plain.len() ==> !text::alphabetic(#[trigger] plain[i]) {
        text::lemma_first_letter(plain, plain.len() as int);
    } else {
        text::lemma_first_letter_is(plain);
    }
}

/// What a command that attaches does to a page, `n` being where the page ends but
/// for spaces and tabs: it stands directly behind that, whatever its replacement.
/// The end of a sentence and a line break ask for a capital, a comma and its like
/// and what closes leave that as it was, and so does what has no space on either
/// side, a tab among it, which has the next text follow directly.
pub proof fn law_what_attaching_commands_do(p: Page, mark: Seq<char>, n: int)
    requires
        0 <= n <= p.out.len(),
        forall|i: int| n <= i < p.out.len() ==> (#[trigger] p.out[i] == ' ' || p.out[i] == '\t'),
        n > 0 ==> p.out[n - 1] != ' ' && p.out[n - 1] != '\t',
    ensures
        with_command(p, Kind::SentenceEnd, mark) == (Page {
            out: p.out.take(n) + mark,
            cap_next: true,
            glue: false,
        }),
        with_command(p, Kind::Break, mark) == (Page {
            out: p.out.take(n) + mark,
            cap_next: true,
            glue: false,
        }),
        with_command(p, Kind::Clause, mark) == (Page {
            out: p.out.take(n) + mark,
            cap_next: p.cap_next,
            glue: false,
        }),
        with_command(p, Kind::Close, mark) == (Page {
            out: p.out.take(n) + mark,
            cap_next: p.cap_next,
            glue: false,
        }),
        with_command(p, Kind::Tight, mark) == (Page {
            out: p.out.take(n) + mark,
            cap_next: p.cap_next,
            glue: true,
        }),
        with_command(p, Kind::Token, seq!['\t']) == (Page {
            out: p.out.take(n) + seq!['\t'],
            cap_next: p.cap_next,
            glue: true,
        }),
{
    text::law_blanks_are_cut(p.out, n);
}

/// What a command that stands apart does to a page: it follows behind a space where
/// the page is not empty, not glued, and does not end with a space, a tab or a line
/// feed, and directly in every other case. Whether a capital is due stays as it was.
/// What opens has the next text follow directly, a symbol does not.
pub proof fn law_what_commands_apart_do(p: Page, mark: Seq<char>)
    ensures
        ({
            let open = with_command(p, Kind::Open, mark);
            let symbol = with_command(p, Kind::Token, mark);
            let end = p.out[p.out.len() - 1];
            let gap = p.out.len() > 0 && !p.glue && end != ' ' && end != '\t' && end != '\n';
            &&& gap ==> open.out == p.out + seq![' '] + mark
            &&& !gap ==> open.out == p.out + mark
            &&& open.cap_next == p.cap_next && open.glue
            &&& mark != seq!['\t'] ==> {
                &&& gap ==> symbol.out == p.out + seq![' '] + mark
                &&& !gap ==> symbol.out == p.out + mark
                &&& symbol.cap_next == p.cap_next && !symbol.glue
            }
        }),
{
    assert(p.out.push(' ') =~= p.out + seq![' ']);
}

/// What opens, and the text behind it: a space comes before it where the page is not
/// empty, not glued, and does not end with a space, a tab or a line feed, none in
/// every other case, and none between it and the text.
pub proof fn law_opening_and_text(p: Page, mark: Seq<char>, raw: Seq<char>)
    requires
        exists|i: int| 0 <= i < raw.len() && !text::white_space(#[trigger] raw[i]),
    ensures
        ({
            let q = with_text(with_command(p, Kind::Open, mark), raw);
            let end = p.out[p.out.len() - 1];
            let gap = p.out.len() > 0 && !p.glue && end != ' ' && end != '\t' && end != '\n';
            let shown = if p.cap_next {
                text::capitalized(text::normalized(raw))
            } else {
                text::normalized(raw)
            };
            &&& gap ==> q.out == p.out + seq![' '] + mark + shown
            &&& !gap ==> q.out == p.out + mark + shown
        }),
{
    law_what_commands_apart_do(p, mark);
    law_what_text_does(with_command(p, Kind::Open, mark), raw);
    law_text_is_kept(p, raw);
    text::lemma_blank_has_no_words(raw);
    text::lemma_blank_has_no_words(text::normalized(raw));
    assert(text::normalized(raw).len() > 0);
}

/// Pieces are set one at a time, each as text or as a command.
pub proof fn law_what_pieces_do(p: Page, raw: Seq<char>, kind: Kind, payload: Seq<char>)
    ensures
        with_pieces(p, Seq::<Piece>::empty()) == p,
        with_pieces(p, seq![Piece::Text(raw)]) == with_text(p, raw),
        with_pieces(p, seq![Piece::Cmd(kind, payload)]) == with_command(p, kind, payload),
        empty_page() == (Page { out: Seq::empty(), cap_next: true, glue: false }),
{
    lemma_one_piece(p, Piece::Text(raw));
    lemma_one_piece(p, Piece::Cmd(kind, payload));
}

/// Finished text is what the pieces leave on an empty page that asks for a capital,
/// from its first character that is no white space to its last that is no space and
/// no tab.
pub proof fn law_what_is_finished(marked: Seq<char>, from: int, to: int)
    requires
        ({
            let out = with_pieces(
                Page { out: Seq::empty(), cap_next: true, glue: false },
                pieces(marked),
            ).out;
            &&& 0 <= from <= to <= out.len()
            &&& forall|i: int| 0 <= i < from ==> text::white_space(#[trigger] out[i])
            &&& forall|i: int| to <= i < out.len() ==> (#[trigger] out[i] == ' ' || out[i] == '\t')
            &&& from < to ==> !text::white_space(out[from]) && out[to - 1] != ' ' && out[to - 1]
                != '\t'
        }),
    ensures
        rendered(marked) == with_pieces(
            Page { out: Seq::empty(), cap_next: true, glue: false },
            pieces(marked),
        ).out.subrange(from, to),
{
    text::law_what_is_trimmed(with_pieces(empty_page(), pieces(marked)).out, from, to);
}

/// Text without marks is, but for trimming, its words with single spaces between
/// them and the first letter in upper case.
pub proof fn law_finished_unmarked_text(s: Seq<char>)
    requires
        forall|i: int| 0 <= i < s.len() ==> #[trigger] s[i] != '\u{E000}',
    ensures
        rendered(s) == text::trimmed(text::capitalized(text::normalized(s))),
{
    lemma_unmarked_text(s);
}

/// A piece and a page stand for what they hold.
pub proof fn law_values_of_pieces(s: String, kind: Kind, sheet: Sheet, segs: Seq<Seg>, k: int)
    requires
        0 <= k < segs.len(),
    ensures
        Seg::Text(s)@ == Piece::Text(s@),
        Seg::Cmd(kind, s)@ == Piece::Cmd(kind, s@),
        sheet@.out == sheet.out@,
        sheet@.cap_next == sheet.cap_next,
        sheet@.glue == sheet.glue,
        seg_pieces(segs).len() == segs.len(),
        seg_pieces(segs)[k] == segs[k]@,
{
}

/// What words do to a page. None do nothing. Else they follow, in upper case form
/// where there is one and the page asks for it, behind a space where the page is not
/// empty, not glued and not at the start of a line; and the page asks on only where
/// it did and there is no upper case form.
pub proof fn law_what_words_do(p: Page, plain: Seq<char>, upper: Seq<char>)
    requires
        plain.len() > 0,
    ensures
        with_words(p, Seq::empty(), Some(upper)) == p,
        with_words(p, Seq::empty(), None) == p,
        ({
            let q = with_words(p, plain, Some(upper));
            let r = with_words(p, plain, None);
            let shown = if p.cap_next {
                upper
            } else {
                plain
            };
            let apart = p.out.len() > 0 && !p.glue && p.out[p.out.len() - 1] != '\n';
            &&& apart ==> q.out == p.out + seq![' '] + shown && r.out == p.out + seq![' '] + plain
            &&& !apart ==> q.out == p.out + shown && r.out == p.out + plain
            &&& !q.glue && !r.glue && !q.cap_next && r.cap_next == p.cap_next
        }),
{
    assert(p.out.push(' ') =~= p.out + seq![' ']);
}

/// A command between two stretches of plain text, from the first character to the
/// last, where it ends a sentence: it stands directly behind the first stretch, and
/// the second follows behind a space, both with a capital.
#[verifier::rlimit(40)]
pub proof fn law_two_sentences(before: Seq<char>, mark: char, after: Seq<char>)
    requires
        forall|i: int| 0 <= i < before.len() ==> #[trigger] before[i] != '\u{E000}',
        forall|i: int| 0 <= i < after.len() ==> #[trigger] after[i] != '\u{E000}',
        exists|i: int| 0 <= i < after.len() && !text::white_space(#[trigger] after[i]),
        mark != '\u{E001}',
        mark != '\n',
    ensures
        rendered(
            before + seq!['\u{E000}', '0', mark, '\u{E001}'] + after,
        ) == text::trimmed(
            text::without_trailing_blanks(text::capitalized(text::normalized(before))) + seq![
                mark,
                ' ',
            ] + text::capitalized(text::normalized(after)),
        ),
{
    let payload = seq![mark];
    let marker = pattern::marker(Kind::SentenceEnd, payload);
    assert(marker =~= seq!['\u{E000}', '0', mark, '\u{E001}']);
    law_command_between_texts(before, Kind::SentenceEnd, payload, after);
    lemma_first_text(before);
    let p = with_text(empty_page(), before);
    let start = text::without_trailing_blanks(p.out);
    let upper = text::capitalized(text::normalized(after));
    assert(!text::blank(after));
    law_sentence_end(p, payload, after);
    assert(start + payload + seq![' '] + upper =~= start + seq![mark, ' '] + upper);
}

/// The first text on a page is its words, the first letter in upper case.
proof fn lemma_first_text(raw: Seq<char>)
    ensures
        with_text(empty_page(), raw).out == text::capitalized(text::normalized(raw)),
{
    let plain = text::normalized(raw);
    assert(Seq::<char>::empty() + text::capitalized(plain) =~= text::capitalized(plain));
    assert(Seq::<char>::empty() + plain =~= plain);
    if plain.len() == 0 {
        assert(text::capitalized(plain) =~= Seq::empty());
    }
}

} // verus!
