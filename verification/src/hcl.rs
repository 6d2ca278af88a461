//! The block-structured configuration language: a scanner that cuts a text
//! into top-level block spans, and a line-oriented parser for each span.

use vstd::prelude::*;
use vstd::hash_map::StringHashMap;
use crate::text::{
    chars_of, find, is_space, is_space_char, lemma_run_len_back_props, lemma_run_len_props,
    push_chars, reads, rfind, rows, scan_run, scan_run_back, split_words, string_of, strip,
    strip_end, strip_end_vec, strip_start, strip_start_vec, strip_vec, subvec, texts, trim,
    words, CharClass,
};

verus! {

/// Why a configuration text was rejected.
#[derive(Clone, Copy, Debug, PartialEq, Eq, Structural)]
pub enum SyntaxError {
    /// A `}` closed a block that was never opened.
    UnexpectedClosingBrace,
    /// The text ended with a block still open, or closed more than it opened.
    UnmatchedBraces,
    /// The text ended inside a quoted string.
    UnmatchedQuotes,
    /// A block has no type word in front of its opening brace.
    MissingBlockType,
}

/// A parsed configuration block.
pub struct Block {
    /// The first word of the header; never empty.
    pub block_type: String,
    /// The remaining header words, quotes removed.
    pub labels: Vec<String>,
    /// The `key = value` lines of the body; a later line replaces an earlier one.
    pub attributes: StringHashMap<String>,
    /// The blocks nested in the body, in order.
    pub blocks: Vec<Block>,
}

/// The mathematical content of a [`Block`].
pub struct BlockModel {
    pub block_type: Seq<char>,
    pub labels: Seq<Seq<char>>,
    pub attributes: Map<Seq<char>, Seq<char>>,
    pub nested: Seq<BlockModel>,
}

/// A string-valued map read as a map between character sequences.
pub open spec fn attribute_model(m: Map<Seq<char>, String>) -> Map<Seq<char>, Seq<char>> {
    Map::new(|k: Seq<char>| m.contains_key(k), |k: Seq<char>| m[k]@)
}

impl View for Block {
    type V = BlockModel;

    open spec fn view(&self) -> BlockModel {
        block_model(*self)
    }
}

/// The content of `b`, nested blocks included.
pub open spec fn block_model(b: Block) -> BlockModel
    decreases b, 0nat,
{
    BlockModel {
        block_type: b.block_type@,
        labels: texts(b.labels@),
        attributes: attribute_model(b.attributes@),
        nested: models_upto(b.blocks, b.blocks@.len()),
    }
}

/// The contents of the first `n` blocks of `v`.
pub open spec fn models_upto(v: Vec<Block>, n: nat) -> Seq<BlockModel>
    decreases v, n,
{
    if n == 0 || n > v@.len() {
        Seq::empty()
    } else {
        models_upto(v, (n - 1) as nat).push(block_model(v@[n - 1]))
    }
}

/// The nested part of a block's model holds the models of its nested blocks.
pub proof fn lemma_nested_models(b: Block)
    ensures
        b@.nested == models(b.blocks@),
{
    lemma_models_upto(b.blocks, b.blocks@.len());
    assert(models(b.blocks@).take(b.blocks@.len() as int) =~= models(b.blocks@));
}

/// [`models_upto`] is a prefix of [`models`].
pub proof fn lemma_models_upto(v: Vec<Block>, n: nat)
    requires
        n <= v@.len(),
    ensures
        models_upto(v, n) == models(v@).take(n as int),
    decreases n,
{
    if n == 0 {
        assert(models(v@).take(0) =~= Seq::<BlockModel>::empty());
    } else {
        lemma_models_upto(v, (n - 1) as nat);
        assert(models(v@).take(n as int) =~= models(v@).take(n - 1).push(v@[n - 1]@));
    }
}

/// The models of a sequence of blocks.
pub open spec fn models(v: Seq<Block>) -> Seq<BlockModel> {
    Seq::new(v.len(), |i: int| v[i]@)
}

/// What the scanner remembers about quoting and comments between two characters.
pub struct Lex {
    /// Inside a `#` comment that has not yet reached its line end.
    pub in_comment: bool,
    /// Inside a quoted string.
    pub in_string: bool,
    /// The previous character was a backslash.
    pub escaped: bool,
    /// How many string delimiters were seen so far.
    pub quotes: nat,
}

/// The scanner's memory after reading `c`.
///
/// A `#` outside a string opens a comment, which lasts up to the next line
/// feed. A `"` delimits a string unless the character just before it is a
/// backslash.
pub open spec fn lex_step(l: Lex, c: char) -> Lex {
    if l.in_comment {
        Lex { in_comment: c != '\n', ..l }
    } else if c == '#' && !l.in_string {
        Lex { in_comment: true, escaped: false, ..l }
    } else if c == '"' && !l.escaped {
        Lex { in_string: !l.in_string, escaped: false, quotes: l.quotes + 1, ..l }
    } else {
        Lex { escaped: c == '\\', ..l }
    }
}

/// The scanner's memory after reading all of `text`.
pub open spec fn lex(text: Seq<char>) -> Lex
    decreases text.len(),
{
    if text.len() == 0 {
        Lex { in_comment: false, in_string: false, escaped: false, quotes: 0 }
    } else {
        lex_step(lex(text.drop_last()), text.last())
    }
}

/// Whether `c`, read with memory `l`, is comment text.
pub open spec fn is_comment_text(l: Lex, c: char) -> bool {
    if l.in_comment {
        c != '\n'
    } else {
        c == '#' && !l.in_string
    }
}

/// The number of string delimiters outside comments in `text`.
pub open spec fn quote_count(text: Seq<char>) -> nat {
    lex(text).quotes
}

/// A string is open exactly when an odd number of delimiters was read.
pub proof fn lemma_in_string_is_odd(text: Seq<char>)
    ensures
        lex(text).in_string <==> quote_count(text) % 2 == 1,
    decreases text.len(),
{
    if text.len() > 0 {
        lemma_in_string_is_odd(text.drop_last());
    }
}

/// Progress of cutting a text into top-level block spans.
pub struct Split {
    /// Opening braces minus closing braces, comments left out.
    pub depth: int,
    /// The span being collected.
    pub current: Seq<char>,
    /// The spans completed so far.
    pub spans: Seq<Seq<char>>,
}

/// Progress after reading `c` with memory `l`.
///
/// Comment text is left out. White space in front of a span is left out. A
/// `}` that brings the depth back to zero completes the span.
pub open spec fn split_step(s: Split, l: Lex, c: char) -> Split {
    if is_comment_text(l, c) {
        s
    } else if c == '{' {
        Split { depth: s.depth + 1, current: s.current.push(c), ..s }
    } else if c == '}' {
        if s.depth == 1 {
            Split { depth: 0, current: Seq::empty(), spans: s.spans.push(s.current.push(c)) }
        } else {
            Split { depth: s.depth - 1, current: s.current.push(c), ..s }
        }
    } else if s.current.len() == 0 && is_space(c) {
        s
    } else {
        Split { current: s.current.push(c), ..s }
    }
}

/// Progress after reading all of `text`.
pub open spec fn split(text: Seq<char>) -> Split
    decreases text.len(),
{
    if text.len() == 0 {
        Split { depth: 0, current: Seq::empty(), spans: Seq::empty() }
    } else {
        split_step(split(text.drop_last()), lex(text.drop_last()), text.last())
    }
}

/// The top-level block spans of `text`.
pub open spec fn spans_of(text: Seq<char>) -> Seq<Seq<char>> {
    split(text).spans
}

/// Opening braces minus closing braces over all of `text`, comments left out.
pub open spec fn final_depth(text: Seq<char>) -> int {
    split(text).depth
}

/// The opening braces of `text` minus its closing braces, those in
/// comments left out.
pub open spec fn net_braces(text: Seq<char>) -> int
    decreases text.len(),
{
    if text.len() == 0 {
        0
    } else if is_comment_text(lex(text.drop_last()), text.last()) {
        net_braces(text.drop_last())
    } else {
        net_braces(text.drop_last()) + brace_delta(text.last())
    }
}

/// The depth at the end of a text is the count of its opening braces
/// minus that of its closing braces, those in comments left out.
pub proof fn lemma_final_depth_counts_braces(text: Seq<char>)
    ensures
        final_depth(text) == net_braces(text),
    decreases text.len(),
{
    if text.len() > 0 {
        lemma_final_depth_counts_braces(text.drop_last());
    }
}

/// Whether `s` has the shape of a top-level span: it begins with a
/// character that is no white space and ends with a closing brace.
pub open spec fn is_span(s: Seq<char>) -> bool {
    s.len() > 0 && !is_space(s[0]) && s.last() == '}'
}

/// Every top-level span of a text has the shape of a span: the white
/// space between blocks belongs to none of them.
pub proof fn lemma_spans_shape(text: Seq<char>)
    ensures
        forall|i: int| 0 <= i < spans_of(text).len() ==> is_span(#[trigger] spans_of(text)[i]),
        split(text).current.len() > 0 ==> !is_space(split(text).current[0]),
    decreases text.len(),
{
    if text.len() > 0 {
        let before = split(text.drop_last());
        let now = split(text);
        lemma_spans_shape(text.drop_last());
        assert(!is_space('{') && !is_space('}'));
        assert forall|i: int| 0 <= i < now.spans.len() implies is_span(#[trigger] now.spans[i]) by {
            if i < before.spans.len() {
                assert(now.spans[i] == spans_of(text.drop_last())[i]);
            } else {
                let span = before.current.push('}');
                assert(now.spans[i] == span);
                if before.current.len() > 0 {
                    assert(span[0] == before.current[0]);
                }
            }
        }
        if now.current.len() > 0 && before.current.len() > 0 {
            assert(now.current[0] == before.current[0]);
        }
    }
}

/// What a scan of a whole text found.
pub struct Scan {
    /// The completed top-level spans.
    pub spans: Vec<Vec<char>>,
    /// Whether as many braces were closed as opened.
    pub balanced: bool,
    /// Whether the text ended inside a quoted string.
    pub in_string: bool,
}

/// Cuts `text` into its top-level block spans in one pass from left to right.
pub fn scan_spans(text: &Vec<char>) -> (r: Scan)
    ensures
        rows(r.spans@) == spans_of(text@),
        r.balanced == (final_depth(text@) == 0),
        r.in_string == (quote_count(text@) % 2 == 1),
{
    let mut in_comment = false;
    let mut in_string = false;
    let mut escaped = false;
    let mut opens: usize = 0;
    let mut closes: usize = 0;
    let mut current: Vec<char> = Vec::new();
    let mut spans: Vec<Vec<char>> = Vec::new();
    let mut i: usize = 0;
    assert(rows(spans@) =~= Seq::<Seq<char>>::empty());
    while i < text.len()
        invariant
            i <= text.len(),
            opens <= i,
            closes <= i,
            lex(text@.take(i as int)).in_comment == in_comment,
            lex(text@.take(i as int)).in_string == in_string,
            lex(text@.take(i as int)).escaped == escaped,
            split(text@.take(i as int)).depth == opens - closes,
            split(text@.take(i as int)).current == current@,
            split(text@.take(i as int)).spans == rows(spans@),
        decreases text.len() - i,
    {
        let c = text[i];
        proof {
            let next = text@.take(i + 1);
            assert(next.drop_last() =~= text@.take(i as int));
            assert(next.last() == c);
        }
        let comment_text = if in_comment {
            c != '\n'
        } else {
            c == '#' && !in_string
        };
        if in_comment {
            in_comment = c != '\n';
        } else if c == '#' && !in_string {
            in_comment = true;
            escaped = false;
        } else if c == '"' && !escaped {
            in_string = !in_string;
            escaped = false;
        } else {
            escaped = c == '\\';
        }
        if comment_text {
        } else if c == '{' {
            opens = opens + 1;
            current.push(c);
        } else if c == '}' {
            closes = closes + 1;
            current.push(c);
            if opens == closes {
                let ghost before = rows(spans@);
                let ghost done = current@;
                spans.push(current);
                current = Vec::new();
                assert(rows(spans@) =~= before.push(done));
            }
        } else if current.len() == 0 && is_space_char(c) {
        } else {
            current.push(c);
        }
        i = i + 1;
    }
    proof {
        assert(text@.take(i as int) =~= text@);
        lemma_in_string_is_odd(text@);
    }
    Scan { spans, balanced: opens == closes, in_string }
}


/// What the body of a block holds.
pub struct Items {
    pub attributes: Map<Seq<char>, Seq<char>>,
    pub nested: Seq<BlockModel>,
}

/// The part of `s` behind position `i`, empty if there is no such part.
pub open spec fn after(s: Seq<char>, i: int) -> Seq<char> {
    if 0 <= i < s.len() {
        s.skip(i + 1)
    } else {
        Seq::empty()
    }
}

/// The change of brace depth that `c` causes.
pub open spec fn brace_delta(c: char) -> int {
    if c == '{' {
        1
    } else if c == '}' {
        -1
    } else {
        0
    }
}

/// Length of the nested block text at the start of `s`: it runs to the first
/// line end at which the braces read so far balance, or to the end of `s`.
pub open spec fn extent(s: Seq<char>, depth: int) -> nat
    decreases s.len(),
{
    if s.len() == 0 || (s[0] == '\n' && depth == 0) {
        0
    } else {
        1 + extent(s.drop_first(), depth + brace_delta(s[0]))
    }
}

/// The items `attributes` and `nested`, followed by the items of `rest`.
/// An attribute of `rest` replaces one of the same key in `attributes`.
pub open spec fn prepend(
    attributes: Map<Seq<char>, Seq<char>>,
    nested: Seq<BlockModel>,
    rest: Result<Items, SyntaxError>,
) -> Result<Items, SyntaxError> {
    match rest {
        Err(e) => Err(e),
        Ok(items) => Ok(
            Items {
                attributes: attributes.union_prefer_right(items.attributes),
                nested: nested + items.nested,
            },
        ),
    }
}

/// The key of an attribute line: what stands left of the first `=`, trimmed.
pub open spec fn attribute_key(line: Seq<char>) -> Seq<char> {
    trim(line.take(find(line, CharClass::Is('='))))
}

/// The value of an attribute line: what stands right of the first `=`,
/// trimmed, then without trailing commas, then without surrounding quotes.
pub open spec fn attribute_value(line: Seq<char>) -> Seq<char> {
    strip(
        strip_end(trim(after(line, find(line, CharClass::Is('=')))), CharClass::Is(',')),
        CharClass::Is('"'),
    )
}

/// Each word without its surrounding quotes.
pub open spec fn unquoted(ws: Seq<Seq<char>>) -> Seq<Seq<char>> {
    Seq::new(ws.len(), |i: int| strip(ws[i], CharClass::Is('"')))
}

/// The first line of `body`, trimmed.
pub open spec fn first_line(body: Seq<char>) -> Seq<char> {
    trim(body.take(find(body, CharClass::Is('\n'))))
}

/// What follows the first line of `body`.
pub open spec fn later_lines(body: Seq<char>) -> Seq<char> {
    after(body, find(body, CharClass::Is('\n')))
}

/// The items of a block body, read line by line.
///
/// A blank line, or one that starts with `#`, holds nothing. A line with an
/// `=` is an attribute. Any other line opens a nested block.
#[verifier::opaque]
pub open spec fn parse_items_spec(body: Seq<char>) -> Result<Items, SyntaxError>
    decreases body.len(), 1nat,
    via parse_items_decreases
{
    if body.len() == 0 {
        Ok(Items { attributes: Map::empty(), nested: Seq::empty() })
    } else {
        let line = first_line(body);
        if line.len() == 0 || line[0] == '#' {
            parse_items_spec(later_lines(body))
        } else if find(line, CharClass::Is('=')) < line.len() {
            prepend(
                Map::empty().insert(attribute_key(line), attribute_value(line)),
                Seq::empty(),
                parse_items_spec(later_lines(body)),
            )
        } else {
            let end = extent(body, 0) as int;
            match parse_block_spec(body.take(end)) {
                Err(e) => Err(e),
                Ok(b) => prepend(Map::empty(), seq![b], parse_items_spec(after(body, end))),
            }
        }
    }
}

/// The block that a span denotes.
///
/// The header is the first line that is not blank, up to its first `{`: its
/// first word is the type, the others are the labels. The body is what
/// follows the header, up to the last `}`.
#[verifier::opaque]
pub open spec fn parse_block_spec(span: Seq<char>) -> Result<BlockModel, SyntaxError>
    decreases span.len(), 0nat,
    via parse_block_decreases
{
    let s = strip_start(span, CharClass::Space);
    let h = find(s, CharClass::Either('{', '\n'));
    let head = words(s.take(h));
    if head.len() == 0 {
        Err(SyntaxError::MissingBlockType)
    } else {
        match parse_items_spec(body_of(after(s, h))) {
            Err(e) => Err(e),
            Ok(items) => Ok(
                BlockModel {
                    block_type: head[0],
                    labels: unquoted(head.skip(1)),
                    attributes: items.attributes,
                    nested: items.nested,
                },
            ),
        }
    }
}

/// What stands in front of the last `}` of `rest`, or all of `rest` if it has none.
pub open spec fn body_of(rest: Seq<char>) -> Seq<char> {
    let close = rfind(rest, CharClass::Is('}'));
    if close >= 0 {
        rest.take(close)
    } else {
        rest
    }
}

/// The nested block text never runs past the end.
pub proof fn lemma_extent_bound(s: Seq<char>, depth: int)
    ensures
        extent(s, depth) <= s.len(),
    decreases s.len(),
{
    if !(s.len() == 0 || (s[0] == '\n' && depth == 0)) {
        lemma_extent_bound(s.drop_first(), depth + brace_delta(s[0]));
    }
}

#[via_fn]
proof fn parse_items_decreases(body: Seq<char>) {
    lemma_extent_bound(body, 0);
}

#[via_fn]
proof fn parse_block_decreases(span: Seq<char>) {
    let s = strip_start(span, CharClass::Space);
    let h = find(s, CharClass::Either('{', '\n'));
    lemma_run_len_props(span, CharClass::Space, true);
    lemma_run_len_props(s, CharClass::Either('{', '\n'), false);
    let rest = after(s, h);
    lemma_run_len_back_props(rest, CharClass::Is('}'), false);
    if words(s.take(h)).len() > 0 {
        if s.len() == 0 {
            assert(s.take(h) =~= Seq::<char>::empty());
            lemma_words_empty();
        }
    }
}

/// The empty text has no words.
pub proof fn lemma_words_empty()
    ensures
        words(Seq::<char>::empty()) == Seq::<Seq<char>>::empty(),
{
    let e = Seq::<char>::empty();
    assert(strip_start(e, CharClass::Space) =~= e);
}


/// Prepending in two steps is prepending the combined items once.
pub proof fn lemma_prepend_twice(
    a1: Map<Seq<char>, Seq<char>>,
    n1: Seq<BlockModel>,
    a2: Map<Seq<char>, Seq<char>>,
    n2: Seq<BlockModel>,
    rest: Result<Items, SyntaxError>,
)
    ensures
        prepend(a1, n1, prepend(a2, n2, rest)) == prepend(
            a1.union_prefer_right(a2),
            n1 + n2,
            rest,
        ),
{
    match rest {
        Err(e) => {},
        Ok(items) => {
            assert(a1.union_prefer_right(a2.union_prefer_right(items.attributes))
                =~= a1.union_prefer_right(a2).union_prefer_right(items.attributes));
            assert(n1 + (n2 + items.nested) =~= (n1 + n2) + items.nested);
        },
    }
}

/// The model of what [`parse_items`] returns.
pub open spec fn items_result(
    r: Result<(StringHashMap<String>, Vec<Block>), SyntaxError>,
) -> Result<Items, SyntaxError> {
    match r {
        Ok(pair) => Ok(Items { attributes: attribute_model(pair.0@), nested: models(pair.1@) }),
        Err(e) => Err(e),
    }
}

/// The model of what [`parse_block`] returns.
pub open spec fn block_result(r: Result<Block, SyntaxError>) -> Result<BlockModel, SyntaxError> {
    match r {
        Ok(b) => Ok(b@),
        Err(e) => Err(e),
    }
}

/// Measures the nested block text that starts at `pos`.
fn nested_extent(body: &Vec<char>, pos: usize) -> (n: usize)
    requires
        pos <= body.len(),
    ensures
        n == extent(body@.skip(pos as int), 0),
        pos + n <= body.len(),
{
    let mut e: usize = pos;
    let mut opens: usize = 0;
    let mut closes: usize = 0;
    while e < body.len() && !(body[e] == '\n' && opens == closes)
        invariant
            pos <= e <= body.len(),
            opens <= e - pos,
            closes <= e - pos,
            extent(body@.skip(pos as int), 0) == (e - pos) + extent(
                body@.skip(e as int),
                opens - closes,
            ),
        decreases body.len() - e,
    {
        let c = body[e];
        proof {
            let t = body@.skip(e as int);
            assert(t[0] == c);
            assert(t.drop_first() =~= body@.skip(e + 1));
        }
        if c == '{' {
            opens = opens + 1;
        } else if c == '}' {
            closes = closes + 1;
        }
        e = e + 1;
    }
    proof {
        let t = body@.skip(e as int);
        if e < body.len() {
            assert(t[0] == body@[e as int]);
        }
    }
    e - pos
}

/// An empty body holds nothing.
pub proof fn lemma_items_of_nothing(body: Seq<char>)
    requires
        body.len() == 0,
    ensures
        parse_items_spec(body) == Ok::<Items, SyntaxError>(
            Items { attributes: Map::empty(), nested: Seq::empty() },
        ),
{
    reveal(parse_items_spec);
}

/// A blank line or a comment line holds nothing.
pub proof fn lemma_items_skip(body: Seq<char>)
    requires
        body.len() > 0,
        first_line(body).len() == 0 || first_line(body)[0] == '#',
    ensures
        parse_items_spec(body) == parse_items_spec(later_lines(body)),
{
    reveal(parse_items_spec);
}

/// A line with an `=` holds one attribute.
pub proof fn lemma_items_attribute(body: Seq<char>)
    requires
        body.len() > 0,
        first_line(body).len() > 0,
        first_line(body)[0] != '#',
        find(first_line(body), CharClass::Is('=')) < first_line(body).len(),
    ensures
        parse_items_spec(body) == prepend(
            Map::empty().insert(
                attribute_key(first_line(body)),
                attribute_value(first_line(body)),
            ),
            Seq::empty(),
            parse_items_spec(later_lines(body)),
        ),
{
    reveal(parse_items_spec);
}

/// Any other line opens a nested block.
pub proof fn lemma_items_nested(body: Seq<char>)
    requires
        body.len() > 0,
        first_line(body).len() > 0,
        first_line(body)[0] != '#',
        find(first_line(body), CharClass::Is('=')) >= first_line(body).len(),
    ensures
        parse_items_spec(body) == (match parse_block_spec(body.take(extent(body, 0) as int)) {
            Err(e) => Err(e),
            Ok(b) => prepend(
                Map::empty(),
                seq![b],
                parse_items_spec(after(body, extent(body, 0) as int)),
            ),
        }),
{
    reveal(parse_items_spec);
    reveal(parse_block_spec);
}

/// Splits an attribute line at its first `=`, which stands at `eq`.
fn parse_attribute(line: &Vec<char>, eq: usize) -> (r: (String, String))
    requires
        eq < line.len(),
        eq == find(line@, CharClass::Is('=')),
    ensures
        r.0@ == attribute_key(line@),
        r.1@ == attribute_value(line@),
{
    let left = subvec(line, 0, eq);
    let key = strip_vec(&left, CharClass::Space);
    let right = subvec(line, eq + 1, line.len());
    let bare = strip_vec(&right, CharClass::Space);
    let quoted = strip_end_vec(&bare, CharClass::Is(','));
    let value = strip_vec(&quoted, CharClass::Is('"'));
    proof {
        assert(left@ =~= line@.take(eq as int));
        assert(right@ =~= after(line@, eq as int));
    }
    (string_of(&key), string_of(&value))
}

/// The first line of what `body` holds from `pos` on, trimmed, and where
/// the next line starts.
fn read_line(body: &Vec<char>, pos: usize) -> (r: (Vec<char>, usize))
    requires
        pos < body.len(),
    ensures
        r.0@ == first_line(body@.skip(pos as int)),
        pos < r.1 <= body.len(),
        body@.skip(r.1 as int) == later_lines(body@.skip(pos as int)),
{
    let ghost rest = body@.skip(pos as int);
    let n = scan_run(body, pos, CharClass::Is('\n'), false);
    let eol = pos + n;
    let raw = subvec(body, pos, eol);
    let line = strip_vec(&raw, CharClass::Space);
    let next = if eol < body.len() {
        eol + 1
    } else {
        eol
    };
    proof {
        assert(raw@ =~= rest.take(n as int));
        assert(body@.skip(next as int) =~= after(rest, n as int));
        if eol == pos {
            lemma_run_len_props(rest, CharClass::Is('\n'), false);
        }
    }
    (line, next)
}

/// The nested block text that `body` holds from `pos` on, and where the
/// next line starts.
fn read_nested(body: &Vec<char>, pos: usize) -> (r: (Vec<char>, usize))
    requires
        pos < body.len(),
    ensures
        r.0@ == body@.skip(pos as int).take(extent(body@.skip(pos as int), 0) as int),
        r.0@.len() <= body@.len(),
        pos <= r.1 <= body.len(),
        r.1 == pos ==> r.0@.len() == 0,
        body@.skip(r.1 as int) == after(
            body@.skip(pos as int),
            extent(body@.skip(pos as int), 0) as int,
        ),
{
    let ghost rest = body@.skip(pos as int);
    let m = nested_extent(body, pos);
    let end = pos + m;
    let span = subvec(body, pos, end);
    let next = if end < body.len() {
        end + 1
    } else {
        end
    };
    proof {
        assert(span@ =~= rest.take(m as int));
        assert(body@.skip(next as int) =~= after(rest, m as int));
    }
    (span, next)
}

/// Reads the items of a block body.
pub fn parse_items(body: &Vec<char>) -> (r: Result<
    (StringHashMap<String>, Vec<Block>),
    SyntaxError,
>)
    ensures
        items_result(r) == parse_items_spec(body@),
    decreases body@.len(), 1nat,
{
    let mut attributes: StringHashMap<String> = StringHashMap::new();
    let mut nested: Vec<Block> = Vec::new();
    let mut pos: usize = 0;
    proof {
        assert(body@.skip(0) =~= body@);
        assert(attribute_model(attributes@) =~= Map::<Seq<char>, Seq<char>>::empty());
        assert(models(nested@) =~= Seq::<BlockModel>::empty());
        lemma_prepend_nothing(parse_items_spec(body@));
    }
    while pos < body.len()
        invariant
            pos <= body.len(),
            parse_items_spec(body@) == prepend(
                attribute_model(attributes@),
                models(nested@),
                parse_items_spec(body@.skip(pos as int)),
            ),
        decreases body.len() - pos,
    {
        let ghost rest = body@.skip(pos as int);
        let ghost seen_attributes = attribute_model(attributes@);
        let ghost seen_nested = models(nested@);
        let (line, next) = read_line(body, pos);
        if line.len() == 0 || line[0] == '#' {
            proof {
                lemma_items_skip(rest);
            }
            pos = next;
        } else {
            assert(line@.skip(0) =~= line@);
            let eq = scan_run(&line, 0, CharClass::Is('='), false);
            if eq < line.len() {
                let (key, value) = parse_attribute(&line, eq);
                let ghost one = Map::<Seq<char>, Seq<char>>::empty().insert(key@, value@);
                attributes.insert(key, value);
                proof {
                    lemma_items_attribute(rest);
                    assert(attribute_model(attributes@) =~= seen_attributes.union_prefer_right(
                        one,
                    ));
                    assert(seen_nested + Seq::<BlockModel>::empty() =~= seen_nested);
                    lemma_prepend_twice(
                        seen_attributes,
                        seen_nested,
                        one,
                        Seq::empty(),
                        parse_items_spec(later_lines(rest)),
                    );
                }
                pos = next;
            } else {
                let (span, after_end) = read_nested(body, pos);
                proof {
                    lemma_items_nested(rest);
                }
                match parse_block_chars(&span) {
                    Err(e) => {
                        return Err(e);
                    },
                    Ok(b) => {
                        let ghost model = b@;
                        nested.push(b);
                        proof {
                            assert(models(nested@) =~= seen_nested + seq![model]);
                            assert(seen_attributes.union_prefer_right(
                                Map::<Seq<char>, Seq<char>>::empty(),
                            ) =~= seen_attributes);
                            lemma_prepend_twice(
                                seen_attributes,
                                seen_nested,
                                Map::empty(),
                                seq![model],
                                parse_items_spec(body@.skip(after_end as int)),
                            );
                            if after_end == pos {
                                assert(span@.len() == 0);
                                lemma_block_needs_text(span@);
                            }
                        }
                        pos = after_end;
                    },
                }
            }
        }
    }
    proof {
        lemma_items_of_nothing(body@.skip(pos as int));
        assert(attribute_model(attributes@).union_prefer_right(
            Map::<Seq<char>, Seq<char>>::empty(),
        ) =~= attribute_model(attributes@));
        assert(models(nested@) + Seq::<BlockModel>::empty() =~= models(nested@));
    }
    Ok((attributes, nested))
}

/// An empty span is no block.
pub proof fn lemma_block_needs_text(span: Seq<char>)
    requires
        span.len() == 0,
    ensures
        parse_block_spec(span) is Err,
{
    reveal(parse_block_spec);
    let s = strip_start(span, CharClass::Space);
    assert(s =~= span);
    let h = find(s, CharClass::Either('{', '\n'));
    assert(s.take(h) =~= Seq::<char>::empty());
    lemma_words_empty();
}

/// Prepending nothing changes nothing.
pub proof fn lemma_prepend_nothing(rest: Result<Items, SyntaxError>)
    ensures
        prepend(Map::empty(), Seq::empty(), rest) == rest,
{
    match rest {
        Err(e) => {},
        Ok(items) => {
            assert(Map::<Seq<char>, Seq<char>>::empty().union_prefer_right(items.attributes)
                =~= items.attributes);
            assert(Seq::<BlockModel>::empty() + items.nested =~= items.nested);
        },
    }
}

/// Parses one block span given as characters.
pub fn parse_block_chars(span: &Vec<char>) -> (r: Result<Block, SyntaxError>)
    ensures
        block_result(r) == parse_block_spec(span@),
    decreases span@.len(), 0nat,
{
    let s = strip_start_vec(span, CharClass::Space);
    assert(s@.skip(0) =~= s@);
    let h = scan_run(&s, 0, CharClass::Either('{', '\n'), false);
    let header = subvec(&s, 0, h);
    let head = split_words(&header);
    proof {
        assert(header@ =~= s@.take(h as int));
        lemma_run_len_props(span@, CharClass::Space, true);
    }
    proof {
        reveal(parse_block_spec);
        reveal(parse_items_spec);
    }
    if head.len() == 0 {
        return Err(SyntaxError::MissingBlockType);
    }
    let rest = if h < s.len() {
        subvec(&s, h + 1, s.len())
    } else {
        Vec::new()
    };
    assert(rest@ =~= after(s@, h as int));
    assert(rest@.take(rest@.len() as int) =~= rest@);
    let tail = scan_run_back(&rest, rest.len(), CharClass::Is('}'), false);
    let body = if tail < rest.len() {
        subvec(&rest, 0, rest.len() - tail - 1)
    } else {
        rest
    };
    proof {
        let r0 = after(s@, h as int);
        if tail < r0.len() {
            assert(body@ =~= r0.take(r0.len() - tail - 1));
        }
        assert(body@ == body_of(r0));
        lemma_run_len_back_props(r0, CharClass::Is('}'), false);
        if h >= s@.len() {
            assert(s@.len() > 0) by {
                if s@.len() == 0 {
                    assert(header@ =~= Seq::<char>::empty());
                    lemma_words_empty();
                }
            }
        }
    }
    let block_type = string_of(&head[0]);
    let mut labels: Vec<String> = Vec::new();
    let mut k: usize = 1;
    while k < head.len()
        invariant
            1 <= k <= head.len(),
            labels@.len() == k - 1,
            forall|j: int|
                0 <= j < k - 1 ==> (#[trigger] labels@[j])@ == strip(
                    head@[j + 1]@,
                    CharClass::Is('"'),
                ),
        decreases head.len() - k,
    {
        let word = strip_vec(&head[k], CharClass::Is('"'));
        labels.push(string_of(&word));
        k = k + 1;
    }
    match parse_items(&body) {
        Err(e) => Err(e),
        Ok(pair) => {
            let (attributes, blocks) = pair;
            let block = Block { block_type, labels, attributes, blocks };
            proof {
                let ws = words(s@.take(h as int));
                assert(ws == rows(head@));
                assert(block@.labels =~= unquoted(ws.skip(1)));
                lemma_nested_models(block);
                assert(block@.block_type == ws[0]);
            }
            Ok(block)
        },
    }
}


/// The blocks that a sequence of spans denotes; the first span that is no
/// block decides the error.
pub open spec fn parse_spans(spans: Seq<Seq<char>>) -> Result<Seq<BlockModel>, SyntaxError>
    decreases spans.len(),
{
    if spans.len() == 0 {
        Ok(Seq::empty())
    } else {
        match parse_spans(spans.drop_last()) {
            Err(e) => Err(e),
            Ok(blocks) => match parse_block_spec(spans.last()) {
                Err(e) => Err(e),
                Ok(b) => Ok(blocks.push(b)),
            },
        }
    }
}

/// The top-level blocks of a configuration text.
///
/// The text is rejected when its braces do not balance, when it ends inside
/// a quoted string, or when one of its spans is no block, in this order.
pub open spec fn parse_blocks_spec(text: Seq<char>) -> Result<Seq<BlockModel>, SyntaxError> {
    if final_depth(text) != 0 {
        Err(SyntaxError::UnmatchedBraces)
    } else if quote_count(text) % 2 != 0 {
        Err(SyntaxError::UnmatchedQuotes)
    } else {
        parse_spans(spans_of(text))
    }
}

/// The model of what [`parse_blocks`] returns.
pub open spec fn blocks_result(
    r: Result<Vec<Block>, SyntaxError>,
) -> Result<Seq<BlockModel>, SyntaxError> {
    match r {
        Ok(blocks) => Ok(models(blocks@)),
        Err(e) => Err(e),
    }
}

/// Parses one block span: a header line and the body that follows it.
pub fn parse_block(content: &str) -> (r: Result<Block, SyntaxError>)
    ensures
        block_result(r) == parse_block_spec(content@),
{
    let span = chars_of(content);
    parse_block_chars(&span)
}

/// Parses a configuration text into its top-level blocks. Nothing is
/// returned unless the whole text is accepted.
pub fn parse_blocks(contents: &str) -> (r: Result<Vec<Block>, SyntaxError>)
    ensures
        blocks_result(r) == parse_blocks_spec(contents@),
        r is Ok <==> final_depth(contents@) == 0 && quote_count(contents@) % 2 == 0 && parse_spans(
            spans_of(contents@),
        ) is Ok,
{
    let text = chars_of(contents);
    let scan = scan_spans(&text);
    if !scan.balanced {
        return Err(SyntaxError::UnmatchedBraces);
    }
    if scan.in_string {
        return Err(SyntaxError::UnmatchedQuotes);
    }
    let spans = scan.spans;
    let mut blocks: Vec<Block> = Vec::new();
    let mut i: usize = 0;
    assert(rows(spans@).take(0) =~= Seq::<Seq<char>>::empty());
    assert(models(blocks@) =~= Seq::<BlockModel>::empty());
    while i < spans.len()
        invariant
            i <= spans.len(),
            parse_spans(rows(spans@).take(i as int)) == Ok::<Seq<BlockModel>, SyntaxError>(
                models(blocks@),
            ),
            text@ == contents@,
            rows(spans@) == spans_of(text@),
            final_depth(text@) == 0,
            quote_count(text@) % 2 == 0,
        decreases spans.len() - i,
    {
        proof {
            let next = rows(spans@).take(i + 1);
            assert(next.drop_last() =~= rows(spans@).take(i as int));
            assert(next.last() == spans@[i as int]@);
        }
        match parse_block_chars(&spans[i]) {
            Err(e) => {
                proof {
                    assert(parse_spans(rows(spans@).take(i + 1)) == Err::<
                        Seq<BlockModel>,
                        SyntaxError,
                    >(e));
                    lemma_parse_spans_fails(rows(spans@), i + 1);
                }
                return Err(e);
            },
            Ok(b) => {
                let ghost seen = models(blocks@);
                let ghost model = b@;
                blocks.push(b);
                assert(models(blocks@) =~= seen.push(model));
            },
        }
        i = i + 1;
    }
    assert(rows(spans@).take(i as int) =~= rows(spans@));
    Ok(blocks)
}

/// Once a prefix of the spans fails, the whole sequence fails in the same way.
pub proof fn lemma_parse_spans_fails(spans: Seq<Seq<char>>, n: int)
    requires
        0 <= n <= spans.len(),
        parse_spans(spans.take(n)) is Err,
    ensures
        parse_spans(spans) == parse_spans(spans.take(n)),
    decreases spans.len() - n,
{
    if n < spans.len() {
        let next = spans.take(n + 1);
        assert(next.drop_last() =~= spans.take(n));
        lemma_parse_spans_fails(spans, n + 1);
    } else {
        assert(spans.take(n) =~= spans);
    }
}

/// Brace bookkeeping of the syntax check: strings and comments hide braces.
pub struct Balance {
    /// Opening braces minus closing braces, outside strings and comments.
    pub depth: int,
    /// Whether the depth was ever negative.
    pub underflow: bool,
}

/// The bookkeeping after reading `c` with memory `l`.
pub open spec fn balance_step(b: Balance, l: Lex, c: char) -> Balance {
    if l.in_comment || l.in_string {
        b
    } else if c == '{' {
        Balance { depth: b.depth + 1, underflow: b.underflow }
    } else if c == '}' {
        Balance { depth: b.depth - 1, underflow: b.underflow || b.depth - 1 < 0 }
    } else {
        b
    }
}

/// The bookkeeping after reading all of `text`.
pub open spec fn balance(text: Seq<char>) -> Balance
    decreases text.len(),
{
    if text.len() == 0 {
        Balance { depth: 0, underflow: false }
    } else {
        balance_step(balance(text.drop_last()), lex(text.drop_last()), text.last())
    }
}

/// The verdict of the syntax check on `text`: the first of these that
/// applies, else the verdict of parsing.
pub open spec fn validate_spec(text: Seq<char>) -> Result<(), SyntaxError> {
    if balance(text).underflow {
        Err(SyntaxError::UnexpectedClosingBrace)
    } else if balance(text).depth != 0 {
        Err(SyntaxError::UnmatchedBraces)
    } else if quote_count(text) % 2 != 0 {
        Err(SyntaxError::UnmatchedQuotes)
    } else {
        match parse_blocks_spec(text) {
            Err(e) => Err(e),
            Ok(_) => Ok(()),
        }
    }
}

/// What one pass over the text tells the syntax check.
pub struct Survey {
    /// Whether a `}` outside strings and comments closed more than was open.
    pub underflow: bool,
    /// Whether the braces outside strings and comments balance.
    pub balanced: bool,
    /// Whether the text ended inside a quoted string.
    pub in_string: bool,
}

/// Reads `text` once, counting braces outside strings and comments.
pub fn survey(text: &Vec<char>) -> (r: Survey)
    ensures
        r.underflow == balance(text@).underflow,
        r.balanced == (balance(text@).depth == 0),
        r.in_string == (quote_count(text@) % 2 == 1),
{
    let mut in_comment = false;
    let mut in_string = false;
    let mut escaped = false;
    let mut opens: usize = 0;
    let mut closes: usize = 0;
    let mut underflow = false;
    let mut i: usize = 0;
    while i < text.len()
        invariant
            i <= text.len(),
            opens <= i,
            closes <= i,
            lex(text@.take(i as int)).in_comment == in_comment,
            lex(text@.take(i as int)).in_string == in_string,
            lex(text@.take(i as int)).escaped == escaped,
            balance(text@.take(i as int)).depth == opens - closes,
            balance(text@.take(i as int)).underflow == underflow,
        decreases text.len() - i,
    {
        let c = text[i];
        proof {
            let next = text@.take(i + 1);
            assert(next.drop_last() =~= text@.take(i as int));
            assert(next.last() == c);
        }
        if in_comment {
            in_comment = c != '\n';
        } else {
            if !in_string {
                if c == '{' {
                    opens = opens + 1;
                } else if c == '}' {
                    closes = closes + 1;
                    if closes > opens {
                        underflow = true;
                    }
                }
            }
            if c == '#' && !in_string {
                in_comment = true;
                escaped = false;
            } else if c == '"' && !escaped {
                in_string = !in_string;
                escaped = false;
            } else {
                escaped = c == '\\';
            }
        }
        i = i + 1;
    }
    proof {
        assert(text@.take(i as int) =~= text@);
        lemma_in_string_is_odd(text@);
    }
    Survey { underflow, balanced: opens == closes, in_string }
}

/// Checks a configuration text: braces outside strings and comments must
/// never close more than was opened and must balance at the end, quotes must
/// pair up, and the text must parse.
pub fn validate_hcl_syntax(contents: &str) -> (r: Result<(), SyntaxError>)
    ensures
        r == validate_spec(contents@),
{
    let text = chars_of(contents);
    let seen = survey(&text);
    if seen.underflow {
        return Err(SyntaxError::UnexpectedClosingBrace);
    }
    if !seen.balanced {
        return Err(SyntaxError::UnmatchedBraces);
    }
    if seen.in_string {
        return Err(SyntaxError::UnmatchedQuotes);
    }
    match parse_blocks(contents) {
        Err(e) => Err(e),
        Ok(_) => Ok(()),
    }
}

/// The text between the quotes of `token`, if `token` is a quoted literal:
/// at least two characters, the first and the last a `"`.
pub open spec fn quoted_inner(token: Seq<char>) -> Option<Seq<char>> {
    if token.len() >= 2 && token[0] == '"' && token[token.len() - 1] == '"' {
        Some(token.subrange(1, token.len() - 1))
    } else {
        None
    }
}

/// The model of an optional string.
pub open spec fn option_text(r: Option<String>) -> Option<Seq<char>> {
    match r {
        Some(s) => Some(s@),
        None => None,
    }
}

/// Returns the inner text of a token that is wrapped in double quotes, and
/// `None` for any other token.
pub fn extract_quoted_value(input: &str) -> (r: Option<String>)
    ensures
        option_text(r) == quoted_inner(input@),
{
    let token = chars_of(input);
    let n = token.len();
    if n >= 2 && token[0] == '"' && token[n - 1] == '"' {
        let inner = subvec(&token, 1, n - 1);
        Some(string_of(&inner))
    } else {
        None
    }
}


/// Whether `b` declares a resource: its type is `resource` and it carries a
/// resource type and a resource name as its first two labels.
pub open spec fn is_resource(b: BlockModel) -> bool {
    b.block_type == "resource"@ && b.labels.len() >= 2
}

/// The identifier of a resource block: its first two labels joined by `_`.
pub open spec fn resource_id(b: BlockModel) -> Seq<char> {
    b.labels[0] + seq!['_'] + b.labels[1]
}

/// The identifiers of the resource blocks among `blocks`, in block order.
/// Equal identifiers are all kept.
pub open spec fn resource_ids(blocks: Seq<BlockModel>) -> Seq<Seq<char>>
    decreases blocks.len(),
{
    if blocks.len() == 0 {
        Seq::empty()
    } else if is_resource(blocks.last()) {
        resource_ids(blocks.drop_last()).push(resource_id(blocks.last()))
    } else {
        resource_ids(blocks.drop_last())
    }
}

/// The resource identifiers that a configuration text declares.
pub open spec fn resource_list_spec(text: Seq<char>) -> Result<Seq<Seq<char>>, SyntaxError> {
    match parse_blocks_spec(text) {
        Err(e) => Err(e),
        Ok(blocks) => Ok(resource_ids(blocks)),
    }
}

/// The model of a list of strings, or of the error in its place.
pub open spec fn texts_result(
    r: Result<Vec<String>, SyntaxError>,
) -> Result<Seq<Seq<char>>, SyntaxError> {
    match r {
        Ok(v) => Ok(texts(v@)),
        Err(e) => Err(e),
    }
}

/// The identifier of `block` if it declares a resource.
pub fn resource_id_of(block: &Block) -> (r: Option<String>)
    ensures
        is_resource(block@) ==> r is Some && r->0@ == resource_id(block@),
        !is_resource(block@) ==> r is None,
{
    if reads(block.block_type.as_str(), "resource") && block.labels.len() >= 2 {
        let mut id = chars_of(block.labels[0].as_str());
        id.push('_');
        let name = chars_of(block.labels[1].as_str());
        push_chars(&mut id, &name);
        assert(id@ =~= resource_id(block@));
        Some(string_of(&id))
    } else {
        None
    }
}

/// The identifiers of the resources among `blocks`, in block order.
pub fn resource_ids_of(blocks: &Vec<Block>) -> (r: Vec<String>)
    ensures
        texts(r@) == resource_ids(models(blocks@)),
{
    let mut resources: Vec<String> = Vec::new();
    let mut i: usize = 0;
    assert(models(blocks@).take(0) =~= Seq::<BlockModel>::empty());
    assert(texts(resources@) =~= Seq::<Seq<char>>::empty());
    while i < blocks.len()
        invariant
            i <= blocks.len(),
            texts(resources@) == resource_ids(models(blocks@).take(i as int)),
        decreases blocks.len() - i,
    {
        proof {
            let next = models(blocks@).take(i + 1);
            assert(next.drop_last() =~= models(blocks@).take(i as int));
            assert(next.last() == blocks@[i as int]@);
        }
        match resource_id_of(&blocks[i]) {
            Some(id) => {
                let ghost seen = texts(resources@);
                let ghost text = id@;
                resources.push(id);
                assert(texts(resources@) =~= seen.push(text));
            },
            None => {},
        }
        i = i + 1;
    }
    assert(models(blocks@).take(i as int) =~= models(blocks@));
    resources
}

/// Lists the resources that a configuration text declares, in the order of
/// their blocks.
pub fn parse_terraform_config(contents: &str) -> (r: Result<Vec<String>, SyntaxError>)
    ensures
        texts_result(r) == resource_list_spec(contents@),
{
    match parse_blocks(contents) {
        Err(e) => Err(e),
        Ok(blocks) => Ok(resource_ids_of(&blocks)),
    }
}


impl Block {
    /// The value of the attribute `key`, if the block has one.
    pub fn attribute(&self, key: &str) -> (r: Option<&String>)
        ensures
            match r {
                Some(v) => self@.attributes.contains_key(key@) && v@ == self@.attributes[key@],
                None => !self@.attributes.contains_key(key@),
            },
    {
        self.attributes.get(key)
    }

    /// The number of attributes of the block.
    pub fn attribute_count(&self) -> (n: usize)
        ensures
            n == self.attributes@.len(),
    {
        self.attributes.len()
    }
}


/// Whether `b` and all blocks nested in it have a type.
pub open spec fn has_types(b: BlockModel) -> bool
    decreases b,
{
    &&& b.block_type.len() > 0
    &&& forall|i: int| 0 <= i < b.nested.len() ==> has_types(#[trigger] b.nested[i])
}

/// A word is never empty.
pub proof fn lemma_words_are_not_empty(s: Seq<char>)
    ensures
        forall|i: int| 0 <= i < words(s).len() ==> (#[trigger] words(s)[i]).len() > 0,
    decreases s.len(),
{
    let t = strip_start(s, CharClass::Space);
    let n = find(t, CharClass::Space);
    lemma_run_len_props(s, CharClass::Space, true);
    lemma_run_len_props(t, CharClass::Space, false);
    if n != 0 {
        lemma_words_are_not_empty(t.skip(n));
        assert forall|i: int| 0 <= i < words(s).len() implies (#[trigger] words(s)[i]).len()
            > 0 by {
            if i > 0 {
                assert(words(s)[i] == words(t.skip(n))[i - 1]);
            }
        }
    }
}

/// A span either denotes a block in which every block has a type, or is
/// rejected for a missing type: no other error comes from a span.
pub proof fn lemma_block_verdict(span: Seq<char>)
    ensures
        match parse_block_spec(span) {
            Ok(b) => has_types(b),
            Err(e) => e == SyntaxError::MissingBlockType,
        },
    decreases span.len(), 0nat,
{
    reveal(parse_block_spec);
    reveal(parse_items_spec);
    let s = strip_start(span, CharClass::Space);
    let h = find(s, CharClass::Either('{', '\n'));
    let head = words(s.take(h));
    if head.len() > 0 {
        lemma_run_len_props(span, CharClass::Space, true);
        lemma_run_len_props(s, CharClass::Either('{', '\n'), false);
        let rest = after(s, h);
        lemma_run_len_back_props(rest, CharClass::Is('}'), false);
        if s.len() == 0 {
            assert(s.take(h) =~= Seq::<char>::empty());
            lemma_words_empty();
        }
        lemma_words_are_not_empty(s.take(h));
        lemma_items_verdict(body_of(rest));
    }
}

/// The items of a body obey [`lemma_block_verdict`] as well.
pub proof fn lemma_items_verdict(body: Seq<char>)
    ensures
        match parse_items_spec(body) {
            Ok(items) => forall|i: int|
                0 <= i < items.nested.len() ==> has_types(#[trigger] items.nested[i]),
            Err(e) => e == SyntaxError::MissingBlockType,
        },
    decreases body.len(), 1nat,
{
    reveal(parse_items_spec);
    reveal(parse_block_spec);
    if body.len() > 0 {
        let eol = find(body, CharClass::Is('\n'));
        let line = trim(body.take(eol));
        if line.len() == 0 || line[0] == '#' || find(line, CharClass::Is('=')) < line.len() {
            lemma_items_verdict(after(body, eol));
        } else {
            let end = extent(body, 0) as int;
            lemma_extent_bound(body, 0);
            lemma_block_verdict(body.take(end));
            lemma_items_verdict(after(body, end));
            match (parse_block_spec(body.take(end)), parse_items_spec(after(body, end))) {
                (Ok(b), Ok(rest)) => {
                    let all = seq![b] + rest.nested;
                    assert forall|i: int| 0 <= i < all.len() implies has_types(
                        #[trigger] all[i],
                    ) by {
                        if i > 0 {
                            assert(all[i] == rest.nested[i - 1]);
                        }
                    }
                },
                _ => {},
            }
        }
    }
}

/// The blocks of a sequence of spans obey [`lemma_block_verdict`] as well.
pub proof fn lemma_spans_verdict(spans: Seq<Seq<char>>)
    ensures
        match parse_spans(spans) {
            Ok(blocks) => blocks.len() == spans.len() && forall|i: int|
                0 <= i < blocks.len() ==> has_types(#[trigger] blocks[i]),
            Err(e) => e == SyntaxError::MissingBlockType,
        },
    decreases spans.len(),
{
    if spans.len() > 0 {
        lemma_spans_verdict(spans.drop_last());
        lemma_block_verdict(spans.last());
    }
}

/// When a text parses, and why not.
///
/// A text parses exactly when its braces balance, its quotes pair up and
/// each of its blocks has a type. Where it parses, there is one block for
/// each top-level span, and every block has a type. Where it does not, the
/// error names the first of the three conditions that fails.
pub proof fn lemma_parse_blocks_verdict(text: Seq<char>)
    ensures
        parse_blocks_spec(text) is Ok <==> final_depth(text) == 0 && quote_count(text) % 2 == 0
            && parse_spans(spans_of(text)) is Ok,
        parse_blocks_spec(text) matches Ok(blocks) ==> blocks.len() == spans_of(text).len()
            && forall|i: int| 0 <= i < blocks.len() ==> has_types(#[trigger] blocks[i]),
        parse_blocks_spec(text) matches Err(e) ==> e == (if final_depth(text) != 0 {
            SyntaxError::UnmatchedBraces
        } else if quote_count(text) % 2 != 0 {
            SyntaxError::UnmatchedQuotes
        } else {
            SyntaxError::MissingBlockType
        }),
{
    lemma_spans_verdict(spans_of(text));
}

/// A text in which no block lacks a type parses exactly when its braces
/// balance and its quotes pair up.
pub proof fn lemma_parse_blocks_succeeds(text: Seq<char>)
    requires
        final_depth(text) == 0 && quote_count(text) % 2 == 0 ==> parse_spans(spans_of(text)) is Ok,
    ensures
        parse_blocks_spec(text) is Ok <==> final_depth(text) == 0 && quote_count(text) % 2 == 0,
{
}

impl SyntaxError {
    /// The words in which the error is reported.
    pub open spec fn message_spec(self) -> Seq<char> {
        match self {
            SyntaxError::UnexpectedClosingBrace => "Invalid HCL syntax: unexpected closing brace"@,
            SyntaxError::UnmatchedBraces => "Invalid HCL syntax: unmatched braces"@,
            SyntaxError::UnmatchedQuotes => "Invalid HCL syntax: unmatched quotes"@,
            SyntaxError::MissingBlockType => "Invalid HCL syntax: block without a type"@,
        }
    }

    /// The words in which the error is reported.
    pub fn message(&self) -> (r: String)
        ensures
            r@ == self.message_spec(),
    {
        match self {
            SyntaxError::UnexpectedClosingBrace => {
                "Invalid HCL syntax: unexpected closing brace".to_owned()
            },
            SyntaxError::UnmatchedBraces => "Invalid HCL syntax: unmatched braces".to_owned(),
            SyntaxError::UnmatchedQuotes => "Invalid HCL syntax: unmatched quotes".to_owned(),
            SyntaxError::MissingBlockType => "Invalid HCL syntax: block without a type".to_owned(),
        }
    }
}

} // verus!
