//! Placeholder tokens in template text: the tokenizer, the list of fields
//! that still need an answer, and the substitution itself.
//!
//! A token is a `<`, the text up to the next `>`, and that `>`. A token whose
//! content begins with `http` is a link and stands for its own content; any
//! other token is a field and stands for the value bound to its content.

use vstd::prelude::*;
use crate::data::ProjectData;
use crate::text::{
    append_chars, find_char, first_index, from_chars, lemma_first_index, same_text, slice_chars,
    texts_of, to_chars,
};

verus! {

/// One piece of a template, as the contracts see it.
pub enum Span {
    /// Text outside any token.
    Literal(Seq<char>),
    /// A token that holds a URL; the content is kept as it is.
    Link(Seq<char>),
    /// A token that names a value of the project.
    Field(Seq<char>),
}

/// One piece of a template.
#[derive(Debug, PartialEq, Eq)]
pub enum Token {
    /// Text outside any token.
    Literal(String),
    /// A token that holds a URL; the content is kept as it is.
    Link(String),
    /// A token that names a value of the project.
    Field(String),
}

impl View for Token {
    type V = Span;

    open spec fn view(&self) -> Span {
        match self {
            Token::Literal(s) => Span::Literal(s@),
            Token::Link(s) => Span::Link(s@),
            Token::Field(s) => Span::Field(s@),
        }
    }
}

/// The views of a list of tokens.
pub open spec fn spans_of(tokens: Seq<Token>) -> Seq<Span> {
    tokens.map_values(|t: Token| t@)
}

/// A token's content marks a link when it begins with `http`.
pub open spec fn is_link(content: Seq<char>) -> bool {
    content.len() >= 4 && content[0] == 'h' && content[1] == 't' && content[2] == 't'
        && content[3] == 'p'
}

/// The span that a token with this content is.
pub open spec fn classify(content: Seq<char>) -> Span {
    if is_link(content) {
        Span::Link(content)
    } else {
        Span::Field(content)
    }
}

/// The spans of `text` from position `from` on, found in one pass from left
/// to right. A `<` with no `>` after it starts no token: the rest of the text
/// is literal.
pub open spec fn spans_from(text: Seq<char>, from: int) -> Seq<Span>
    decreases text.len() - from,
{
    if from < 0 || from >= text.len() {
        Seq::empty()
    } else {
        let open = first_index(text, '<', from);
        let close = first_index(text, '>', open + 1);
        if open >= text.len() || close >= text.len() {
            seq![Span::Literal(text.subrange(from, text.len() as int))]
        } else {
            proof {
                lemma_first_index(text, '<', from);
                lemma_first_index(text, '>', open + 1);
            }
            let token = classify(text.subrange(open + 1, close));
            let rest = spans_from(text, close + 1);
            if open > from {
                seq![Span::Literal(text.subrange(from, open)), token] + rest
            } else {
                seq![token] + rest
            }
        }
    }
}

/// The spans of a whole text.
pub open spec fn tokenize_spec(text: Seq<char>) -> Seq<Span> {
    spans_from(text, 0)
}

/// The text that a span was read from.
pub open spec fn span_source(span: Span) -> Seq<char> {
    match span {
        Span::Literal(s) => s,
        Span::Link(s) => seq!['<'] + s + seq!['>'],
        Span::Field(s) => seq!['<'] + s + seq!['>'],
    }
}

/// What a span becomes under `table`: a literal stays, a link gives its
/// content, a field gives the value bound to its name. A field that `table`
/// does not bind stays as it was written.
pub open spec fn span_text(span: Span, table: Map<Seq<char>, Seq<char>>) -> Seq<char> {
    match span {
        Span::Literal(s) => s,
        Span::Link(s) => s,
        Span::Field(s) => if table.contains_key(s) {
            table[s]
        } else {
            span_source(span)
        },
    }
}

/// The spans put back together as they were written.
pub open spec fn source(spans: Seq<Span>) -> Seq<char>
    decreases spans.len(),
{
    if spans.len() == 0 {
        Seq::empty()
    } else {
        source(spans.drop_last()) + span_source(spans.last())
    }
}

/// The spans put together with every token resolved under `table`.
pub open spec fn render(spans: Seq<Span>, table: Map<Seq<char>, Seq<char>>) -> Seq<char>
    decreases spans.len(),
{
    if spans.len() == 0 {
        Seq::empty()
    } else {
        render(spans.drop_last(), table) + span_text(spans.last(), table)
    }
}

/// The names of the fields among `spans` that `known` does not bind, each
/// once, in the order in which they first occur.
pub open spec fn missing(spans: Seq<Span>, known: Map<Seq<char>, Seq<char>>) -> Seq<Seq<char>>
    decreases spans.len(),
{
    if spans.len() == 0 {
        Seq::empty()
    } else {
        let before = missing(spans.drop_last(), known);
        match spans.last() {
            Span::Field(name) => if known.contains_key(name) || before.contains(name) {
                before
            } else {
                before.push(name)
            },
            _ => before,
        }
    }
}

/// The project data after a substitution: what `data` held, and for each
/// field among `spans` that `data` did not bind, the answer given for it.
pub open spec fn resolved(
    spans: Seq<Span>,
    data: Map<Seq<char>, Seq<char>>,
    answers: Map<Seq<char>, Seq<char>>,
) -> Map<Seq<char>, Seq<char>> {
    Map::new(
        |name: Seq<char>|
            data.contains_key(name) || (answers.contains_key(name) && spans.contains(
                Span::Field(name),
            )),
        |name: Seq<char>|
            if data.contains_key(name) {
                data[name]
            } else {
                answers[name]
            },
    )
}

/// The text after a substitution.
pub open spec fn substituted(
    text: Seq<char>,
    data: Map<Seq<char>, Seq<char>>,
    answers: Map<Seq<char>, Seq<char>>,
) -> Seq<char> {
    render(tokenize_spec(text), resolved(tokenize_spec(text), data, answers))
}

/// Whether `text` holds a token: a `<` with a `>` somewhere after it.
pub open spec fn has_token(text: Seq<char>) -> bool {
    exists|i: int, j: int| 0 <= i < j < text.len() && text[i] == '<' && text[j] == '>'
}

fn is_link_chars(content: &Vec<char>) -> (r: bool)
    ensures
        r == is_link(content@),
{
    content.len() >= 4 && content[0] == 'h' && content[1] == 't' && content[2] == 't'
        && content[3] == 'p'
}

/// Splits `text` into its spans.
pub fn tokenize(text: &str) -> (tokens: Vec<Token>)
    ensures
        spans_of(tokens@) == tokenize_spec(text@),
{
    let chars = to_chars(text);
    let mut tokens: Vec<Token> = Vec::new();
    let mut cursor: usize = 0;
    while cursor < chars.len()
        invariant
            cursor <= chars.len(),
            spans_of(tokens@) + spans_from(chars@, cursor as int) == spans_from(chars@, 0),
        decreases chars.len() - cursor,
    {
        let ghost done = spans_of(tokens@);
        let ghost todo = spans_from(chars@, cursor as int);
        let open = find_char(&chars, '<', cursor);
        let close = if open < chars.len() {
            find_char(&chars, '>', open + 1)
        } else {
            chars.len()
        };
        if open >= chars.len() || close >= chars.len() {
            let rest = from_chars(&slice_chars(&chars, cursor, chars.len()));
            tokens.push(Token::Literal(rest));
            cursor = chars.len();
            proof {
                assert(spans_of(tokens@) =~= done.push(Span::Literal(rest@)));
                assert(todo =~= seq![Span::Literal(rest@)]);
                assert(spans_of(tokens@) + spans_from(chars@, cursor as int) =~= done + todo);
            }
        } else {
            if open > cursor {
                let before = from_chars(&slice_chars(&chars, cursor, open));
                tokens.push(Token::Literal(before));
            }
            let content = slice_chars(&chars, open + 1, close);
            let name = from_chars(&content);
            let token = if is_link_chars(&content) {
                Token::Link(name)
            } else {
                Token::Field(name)
            };
            let ghost span = token@;
            let ghost mid = spans_of(tokens@);
            tokens.push(token);
            proof {
                assert(span == classify(chars@.subrange(open + 1, close as int)));
                assert(spans_of(tokens@) =~= mid.push(span));
                if open > cursor {
                    assert(mid =~= done.push(
                        Span::Literal(chars@.subrange(cursor as int, open as int)),
                    ));
                } else {
                    assert(mid =~= done);
                }
                assert(spans_of(tokens@) + spans_from(chars@, close + 1) =~= done + todo);
            }
            cursor = close + 1;
        }
    }
    assert(spans_of(tokens@) + Seq::<Span>::empty() =~= spans_of(tokens@));
    tokens
}

/// A sequence with one more element holds what it held before, and that
/// element.
pub proof fn lemma_contains_push<T>(s: Seq<T>, last: T, x: T)
    ensures
        s.push(last).contains(x) <==> s.contains(x) || last == x,
{
    let longer = s.push(last);
    if s.contains(x) {
        let i = choose|i: int| 0 <= i < s.len() && s[i] == x;
        assert(longer[i] == x);
    }
    if last == x {
        assert(longer[s.len() as int] == x);
    }
    if longer.contains(x) {
        let i = choose|i: int| 0 <= i < longer.len() && longer[i] == x;
        if i < s.len() {
            assert(s[i] == x);
        }
    }
}

fn holds_name(names: &Vec<String>, name: &str) -> (found: bool)
    ensures
        found == texts_of(names@).contains(name@),
{
    let mut i: usize = 0;
    while i < names.len()
        invariant
            i <= names.len(),
            forall|k: int| 0 <= k < i ==> names@[k]@ != name@,
        decreases names.len() - i,
    {
        if same_text(names[i].as_str(), name) {
            assert(texts_of(names@)[i as int] == name@);
            return true;
        }
        i += 1;
    }
    assert forall|k: int| 0 <= k < texts_of(names@).len() implies texts_of(names@)[k]
        != name@ by {
        assert(texts_of(names@)[k] == names@[k]@);
    }
    false
}

/// The fields among `tokens` that `data` cannot resolve: the names to ask
/// for, each once, in the order in which the template first uses them.
pub fn unresolved_fields(tokens: &Vec<Token>, data: &ProjectData) -> (names: Vec<String>)
    ensures
        texts_of(names@) == missing(spans_of(tokens@), data@),
{
    let mut names: Vec<String> = Vec::new();
    let mut i: usize = 0;
    assert(spans_of(tokens@).take(0) =~= Seq::<Span>::empty());
    while i < tokens.len()
        invariant
            i <= tokens.len(),
            texts_of(names@) == missing(spans_of(tokens@).take(i as int), data@),
        decreases tokens.len() - i,
    {
        let ghost spans = spans_of(tokens@);
        let ghost before = texts_of(names@);
        proof {
            assert(spans.take(i + 1).drop_last() =~= spans.take(i as int));
            assert(spans.take(i + 1).last() == tokens@[i as int]@);
        }
        match &tokens[i] {
            Token::Field(name) => {
                if !data.contains_key(name.as_str()) && !holds_name(&names, name.as_str()) {
                    names.push(name.clone());
                    assert(texts_of(names@) =~= before.push(name@));
                }
            },
            _ => {},
        }
        i += 1;
    }
    assert(spans_of(tokens@).take(tokens@.len() as int) =~= spans_of(tokens@));
    names
}

/// Resolves every token: a field from `data`, or else from `answers`, whose
/// value is then recorded in `data`. Returns the finished text.
pub fn fill(tokens: &Vec<Token>, data: &mut ProjectData, answers: &ProjectData) -> (text: String)
    ensures
        final(data)@ == resolved(spans_of(tokens@), old(data)@, answers@),
        text@ == render(spans_of(tokens@), final(data)@),
{
    let ghost spans = spans_of(tokens@);
    let ghost start = data@;
    let mut i: usize = 0;
    assert(data@ =~= resolved(spans.take(0), start, answers@));
    while i < tokens.len()
        invariant
            i <= tokens.len(),
            spans == spans_of(tokens@),
            data@ == resolved(spans.take(i as int), start, answers@),
        decreases tokens.len() - i,
    {
        let ghost held = data@;
        proof {
            assert(spans.take(i + 1) =~= spans.take(i as int).push(spans[i as int]));
            assert forall|x: Span|
                spans.take(i + 1).contains(x) <==> spans.take(i as int).contains(x) || spans[i as int]
                    == x by {
                lemma_contains_push(spans.take(i as int), spans[i as int], x);
            }
        }
        match &tokens[i] {
            Token::Field(name) => {
                if !data.contains_key(name.as_str()) {
                    match answers.get(name.as_str()) {
                        Some(value) => {
                            data.insert(name.clone(), value.clone());
                        },
                        None => {},
                    }
                }
            },
            _ => {},
        }
        assert(data@ =~= resolved(spans.take(i + 1), start, answers@));
        i += 1;
    }
    assert(spans.take(tokens@.len() as int) =~= spans);
    let mut out: Vec<char> = Vec::new();
    let mut k: usize = 0;
    assert(spans.take(0) =~= Seq::<Span>::empty());
    while k < tokens.len()
        invariant
            k <= tokens.len(),
            spans == spans_of(tokens@),
            out@ == render(spans.take(k as int), data@),
        decreases tokens.len() - k,
    {
        proof {
            assert(spans.take(k + 1).drop_last() =~= spans.take(k as int));
            assert(spans.take(k + 1).last() == tokens@[k as int]@);
        }
        match &tokens[k] {
            Token::Literal(s) => {
                let piece = to_chars(s.as_str());
                append_chars(&mut out, &piece);
            },
            Token::Link(s) => {
                let piece = to_chars(s.as_str());
                append_chars(&mut out, &piece);
            },
            Token::Field(name) => {
                match data.get(name.as_str()) {
                    Some(value) => {
                        let piece = to_chars(value.as_str());
                        append_chars(&mut out, &piece);
                    },
                    None => {
                        let ghost head = out@;
                        let piece = to_chars(name.as_str());
                        out.push('<');
                        append_chars(&mut out, &piece);
                        out.push('>');
                        assert(out@ =~= head + (seq!['<'] + name@ + seq!['>']));
                    },
                }
            },
        }
        k += 1;
    }
    assert(spans.take(tokens@.len() as int) =~= spans);
    from_chars(&out)
}

/// The fields of `text` that `data` cannot resolve: the names to ask for
/// before `substitute`, each once, in the order in which the text first uses
/// them.
pub fn pending_fields(text: &str, data: &ProjectData) -> (names: Vec<String>)
    ensures
        texts_of(names@) == missing(tokenize_spec(text@), data@),
{
    let tokens = tokenize(text);
    unresolved_fields(&tokens, data)
}

/// Replaces every token of `text`: a link by its content, a field by the
/// value that `data` binds to its name, or else by the answer given for it,
/// which is then recorded in `data`. A field with neither stays as written.
pub fn substitute(text: &str, data: &mut ProjectData, answers: &ProjectData) -> (out: String)
    ensures
        final(data)@ == resolved(tokenize_spec(text@), old(data)@, answers@),
        out@ == render(tokenize_spec(text@), final(data)@),
        out@ == substituted(text@, old(data)@, answers@),
{
    let tokens = tokenize(text);
    fill(&tokens, data, answers)
}

/// Rendering goes piece by piece.
pub proof fn lemma_render_concat(a: Seq<Span>, b: Seq<Span>, table: Map<Seq<char>, Seq<char>>)
    ensures
        render(a + b, table) == render(a, table) + render(b, table),
    decreases b.len(),
{
    if b.len() == 0 {
        assert(a + b =~= a);
        assert(render(a, table) + render(b, table) =~= render(a, table));
    } else {
        lemma_render_concat(a, b.drop_last(), table);
        assert((a + b).drop_last() =~= a + b.drop_last());
        assert((a + b).last() == b.last());
        assert(render(a + b, table) =~= render(a, table) + render(b, table));
    }
}

/// Putting spans back together goes piece by piece.
pub proof fn lemma_source_concat(a: Seq<Span>, b: Seq<Span>)
    ensures
        source(a + b) == source(a) + source(b),
    decreases b.len(),
{
    if b.len() == 0 {
        assert(a + b =~= a);
        assert(source(a) + source(b) =~= source(a));
    } else {
        lemma_source_concat(a, b.drop_last());
        assert((a + b).drop_last() =~= a + b.drop_last());
        assert((a + b).last() == b.last());
        assert(source(a + b) =~= source(a) + source(b));
    }
}

proof fn lemma_render_one(span: Span, table: Map<Seq<char>, Seq<char>>)
    ensures
        render(seq![span], table) == span_text(span, table),
        source(seq![span]) == span_source(span),
{
    let one = seq![span];
    assert(one.drop_last() =~= Seq::<Span>::empty());
    assert(one.last() == span);
    assert(render(one.drop_last(), table) =~= Seq::<char>::empty());
    assert(source(one.drop_last()) =~= Seq::<char>::empty());
    assert(render(one, table) =~= span_text(span, table));
    assert(source(one) =~= span_source(span));
}

proof fn lemma_source_from(text: Seq<char>, from: int)
    requires
        0 <= from <= text.len(),
    ensures
        source(spans_from(text, from)) == text.subrange(from, text.len() as int),
    decreases text.len() - from,
{
    let end = text.len() as int;
    if from >= end {
        assert(source(spans_from(text, from)) =~= text.subrange(from, end));
    } else {
        let open = first_index(text, '<', from);
        let close = first_index(text, '>', open + 1);
        lemma_first_index(text, '<', from);
        if open >= end || close >= end {
            lemma_render_one(Span::Literal(text.subrange(from, end)), Map::empty());
        } else {
            lemma_first_index(text, '>', open + 1);
            let content = text.subrange(open + 1, close);
            let token = classify(content);
            let rest = spans_from(text, close + 1);
            lemma_source_from(text, close + 1);
            lemma_render_one(token, Map::empty());
            assert(span_source(token) =~= text.subrange(open, close + 1));
            if open > from {
                let lit = Span::Literal(text.subrange(from, open));
                lemma_render_one(lit, Map::empty());
                assert(seq![lit, token] + rest =~= seq![lit] + (seq![token] + rest));
                lemma_source_concat(seq![token], rest);
                lemma_source_concat(seq![lit], seq![token] + rest);
                assert(source(spans_from(text, from)) =~= text.subrange(from, end));
            } else {
                lemma_source_concat(seq![token], rest);
                assert(source(spans_from(text, from)) =~= text.subrange(from, end));
            }
        }
    }
}

/// The tokenizer loses nothing: the spans of a text, put back together as
/// they were written, are that text.
pub proof fn lemma_tokenize_lossless(text: Seq<char>)
    ensures
        source(tokenize_spec(text)) == text,
{
    lemma_source_from(text, 0);
    assert(text.subrange(0, text.len() as int) =~= text);
}

/// No name is asked for twice, every name asked for is a field of the
/// template that `known` does not bind, and every such field is asked for.
pub proof fn lemma_missing_exact(spans: Seq<Span>, known: Map<Seq<char>, Seq<char>>)
    ensures
        missing(spans, known).no_duplicates(),
        forall|name: Seq<char>| #[trigger]
            missing(spans, known).contains(name) <==> spans.contains(Span::Field(name))
                && !known.contains_key(name),
    decreases spans.len(),
{
    let all = missing(spans, known);
    if spans.len() == 0 {
        assert forall|name: Seq<char>| #[trigger]
            all.contains(name) <==> spans.contains(Span::Field(name)) && !known.contains_key(
                name,
            ) by {}
    } else {
        let front = spans.drop_last();
        let before = missing(front, known);
        lemma_missing_exact(front, known);
        assert(spans =~= front.push(spans.last()));
        assert forall|name: Seq<char>| #[trigger]
            all.contains(name) <==> spans.contains(Span::Field(name)) && !known.contains_key(
                name,
            ) by {
            lemma_contains_push(front, spans.last(), Span::Field(name));
            assert(before.contains(name) <==> front.contains(Span::Field(name))
                && !known.contains_key(name));
            match spans.last() {
                Span::Field(last) => {
                    if !(known.contains_key(last) || before.contains(last)) {
                        lemma_contains_push(before, last, name);
                    }
                },
                _ => {},
            }
        }
        match spans.last() {
            Span::Field(last) => {
                if !(known.contains_key(last) || before.contains(last)) {
                    assert forall|i: int, j: int|
                        0 <= i < all.len() && 0 <= j < all.len() && i != j implies all[i]
                        != all[j] by {
                        if i < before.len() && j < before.len() {
                        } else if i < before.len() {
                            assert(before.contains(before[i]));
                        } else {
                            assert(before.contains(before[j]));
                        }
                    }
                }
            },
            _ => {},
        }
    }
}

/// A text with no `<`.
pub open spec fn is_quiet(text: Seq<char>) -> bool {
    forall|i: int| 0 <= i < text.len() ==> text[i] != '<'
}

/// Every link among `spans`, and every value that `table` gives to a field
/// among them, is without `<`, and every field is bound.
pub open spec fn is_settled(spans: Seq<Span>, table: Map<Seq<char>, Seq<char>>) -> bool {
    forall|k: int|
        0 <= k < spans.len() ==> match #[trigger] spans[k] {
            Span::Literal(_) => true,
            Span::Link(content) => is_quiet(content),
            Span::Field(name) => table.contains_key(name) && is_quiet(table[name]),
        }
}

proof fn lemma_quiet_prefix(a: Seq<char>, b: Seq<char>)
    requires
        is_quiet(a),
        !has_token(b),
    ensures
        !has_token(a + b),
{
    let whole = a + b;
    if has_token(whole) {
        let (i, j) = choose|i: int, j: int|
            0 <= i < j < whole.len() && whole[i] == '<' && whole[j] == '>';
        assert(i >= a.len());
        assert(b[i - a.len()] == '<' && b[j - a.len()] == '>');
    }
}

proof fn lemma_plain_spans(text: Seq<char>, from: int)
    requires
        0 <= from < text.len(),
        !has_token(text.subrange(from, text.len() as int)),
    ensures
        spans_from(text, from) == seq![Span::Literal(text.subrange(from, text.len() as int))],
{
    let end = text.len() as int;
    let tail = text.subrange(from, end);
    let open = first_index(text, '<', from);
    let close = first_index(text, '>', open + 1);
    lemma_first_index(text, '<', from);
    if open < end {
        lemma_first_index(text, '>', open + 1);
        if close < end {
            assert(tail[open - from] == '<' && tail[close - from] == '>');
        }
    }
}

/// A text without tokens is one literal span, or none when it is empty.
pub proof fn lemma_plain_text_spans(text: Seq<char>)
    requires
        !has_token(text),
    ensures
        tokenize_spec(text) == if text.len() == 0 {
            Seq::<Span>::empty()
        } else {
            seq![Span::Literal(text)]
        },
{
    assert(text.subrange(0, text.len() as int) =~= text);
    if text.len() > 0 {
        lemma_plain_spans(text, 0);
    }
}

/// A template without fields, whatever links it holds, needs neither the
/// project data nor the user: nothing is asked, the data stay as they were,
/// and the finished text is the same under every table.
pub proof fn lemma_links_need_nothing(
    spans: Seq<Span>,
    data: Map<Seq<char>, Seq<char>>,
    answers: Map<Seq<char>, Seq<char>>,
)
    requires
        forall|k: int| 0 <= k < spans.len() ==> !(#[trigger] spans[k] is Field),
    ensures
        missing(spans, data) == Seq::<Seq<char>>::empty(),
        resolved(spans, data, answers) == data,
        render(spans, data) == render(spans, Map::empty()),
    decreases spans.len(),
{
    if spans.len() > 0 {
        assert(spans.last() == spans[spans.len() - 1]);
        let front = spans.drop_last();
        assert forall|k: int| 0 <= k < front.len() implies !(#[trigger] front[k] is Field) by {
            assert(front[k] == spans[k]);
        }
        lemma_links_need_nothing(front, data, answers);
    }
    assert forall|name: Seq<char>| !spans.contains(Span::Field(name)) by {
        if spans.contains(Span::Field(name)) {
            let i = choose|i: int| 0 <= i < spans.len() && spans[i] == Span::Field(name);
            assert(spans[i] is Field);
        }
    }
    assert(resolved(spans, data, answers) =~= data);
}

/// Substitution leaves a text without tokens as it is: the text comes back
/// unchanged, no name is asked for, and the project data stay as they were.
pub proof fn lemma_plain_text_unchanged(
    text: Seq<char>,
    data: Map<Seq<char>, Seq<char>>,
    answers: Map<Seq<char>, Seq<char>>,
)
    requires
        !has_token(text),
    ensures
        substituted(text, data, answers) == text,
        missing(tokenize_spec(text), data) == Seq::<Seq<char>>::empty(),
        resolved(tokenize_spec(text), data, answers) == data,
{
    lemma_plain_text_spans(text);
    let spans = tokenize_spec(text);
    lemma_links_need_nothing(spans, data, answers);
    if text.len() > 0 {
        lemma_render_one(Span::Literal(text), data);
    }
}

proof fn lemma_rendered_plain(text: Seq<char>, from: int, table: Map<Seq<char>, Seq<char>>)
    requires
        0 <= from <= text.len(),
        is_settled(spans_from(text, from), table),
    ensures
        !has_token(render(spans_from(text, from), table)),
    decreases text.len() - from,
{
    let end = text.len() as int;
    let spans = spans_from(text, from);
    if from < end {
        let open = first_index(text, '<', from);
        let close = first_index(text, '>', open + 1);
        lemma_first_index(text, '<', from);
        if open >= end || close >= end {
            let tail = text.subrange(from, end);
            lemma_render_one(Span::Literal(tail), table);
            if has_token(tail) {
                let (i, j) = choose|i: int, j: int|
                    0 <= i < j < tail.len() && tail[i] == '<' && tail[j] == '>';
                assert(text[from + i] == '<' && text[from + j] == '>');
                assert(from + i >= open);
                lemma_first_index(text, '>', open + 1);
            }
        } else {
            lemma_first_index(text, '>', open + 1);
            let token = classify(text.subrange(open + 1, close));
            let rest = spans_from(text, close + 1);
            let lit = Span::Literal(text.subrange(from, open));
            let head = if open > from {
                seq![lit, token]
            } else {
                seq![token]
            };
            assert(spans == head + rest);
            assert forall|k: int| 0 <= k < rest.len() implies match #[trigger] rest[k] {
                Span::Literal(_) => true,
                Span::Link(content) => is_quiet(content),
                Span::Field(name) => table.contains_key(name) && is_quiet(table[name]),
            } by {
                assert(rest[k] == spans[head.len() + k]);
            }
            lemma_rendered_plain(text, close + 1, table);
            lemma_render_concat(head, rest, table);
            lemma_render_one(token, table);
            assert(spans[head.len() - 1] == token);
            assert(is_quiet(span_text(token, table)));
            if open > from {
                lemma_render_one(lit, table);
                assert(head =~= seq![lit] + seq![token]);
                lemma_render_concat(seq![lit], seq![token], table);
            }
            assert(is_quiet(render(head, table)));
            lemma_quiet_prefix(render(head, table), render(rest, table));
        }
    } else {
        assert(render(spans, table) =~= Seq::<char>::empty());
    }
}

/// Where no link of the template and no value put in for a field holds a
/// `<`, and every field gets a value, the finished text holds no token.
pub proof fn lemma_substituted_plain(
    text: Seq<char>,
    data: Map<Seq<char>, Seq<char>>,
    answers: Map<Seq<char>, Seq<char>>,
)
    requires
        is_settled(tokenize_spec(text), resolved(tokenize_spec(text), data, answers)),
    ensures
        !has_token(substituted(text, data, answers)),
{
    lemma_rendered_plain(text, 0, resolved(tokenize_spec(text), data, answers));
}

/// Substitution is idempotent on what it has finished: where the finished
/// text holds no token, substitution run again on it, with the data it left
/// and whatever answers, returns that text, asks for nothing and leaves the
/// data alone.
pub proof fn lemma_substitute_idempotent(
    text: Seq<char>,
    data: Map<Seq<char>, Seq<char>>,
    answers: Map<Seq<char>, Seq<char>>,
    later_answers: Map<Seq<char>, Seq<char>>,
)
    requires
        !has_token(substituted(text, data, answers)),
    ensures
        ({
            let once = substituted(text, data, answers);
            let kept = resolved(tokenize_spec(text), data, answers);
            &&& substituted(once, kept, later_answers) == once
            &&& missing(tokenize_spec(once), kept) == Seq::<Seq<char>>::empty()
            &&& resolved(tokenize_spec(once), kept, later_answers) == kept
        }),
{
    let once = substituted(text, data, answers);
    let kept = resolved(tokenize_spec(text), data, answers);
    lemma_plain_text_unchanged(once, kept, later_answers);
}

} // verus!
