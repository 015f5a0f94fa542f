//! Search result previews: a bounded excerpt of the evidence text, centred
//! on the passage that matches the most query terms.

use vstd::prelude::*;

use crate::text::{
    char_vec, is_alphanumeric, is_alphanumeric_char, is_white_space, is_whitespace, lowercase_chars,
    push_char, to_lowercase,
};

verus! {

/// Characters kept from the start of a record's content.
pub const LEADING_WINDOW_CHARS: usize = 1500;

/// Most characters in a preview, ellipses included.
pub const PREVIEW_MAX_CHARS: usize = 240;

/// Marks text cut from either side of a preview.
pub const ELLIPSIS: char = '\u{2026}';

/// A lowercase word of the text and its character span.
#[derive(Clone, Debug, PartialEq, Eq)]
pub struct PreviewToken {
    /// The lowercased word.
    pub term: String,
    /// Index of the word's first character.
    pub start: usize,
    /// Index just past the word's last character.
    pub end: usize,
}

/// A stretch of text scored by the query terms it holds.
#[derive(Clone, Copy, Debug, PartialEq, Eq)]
pub struct PreviewWindow {
    /// First character index.
    pub start: usize,
    /// End character index.
    pub end: usize,
    /// Distinct query terms inside.
    pub distinct: usize,
    /// Query term occurrences inside.
    pub occurrences: usize,
}

/// A token as (term, start, end).
pub open spec fn token_view(token: PreviewToken) -> (Seq<char>, int, int) {
    (token.term@, token.start as int, token.end as int)
}

pub open spec fn token_views(tokens: Seq<PreviewToken>) -> Seq<(Seq<char>, int, int)> {
    tokens.map_values(|token: PreviewToken| token_view(token))
}

pub open spec fn string_views(strings: Seq<String>) -> Seq<Seq<char>> {
    strings.map_values(|s: String| s@)
}

/// The first `LEADING_WINDOW_CHARS` characters.
pub open spec fn leading_window_chars(cs: Seq<char>) -> Seq<char> {
    if cs.len() <= LEADING_WINDOW_CHARS {
        cs
    } else {
        cs.take(LEADING_WINDOW_CHARS as int)
    }
}

/// Returns a bounded leading content window.
pub fn leading_window(text: &str) -> (window: String)
    ensures
        window@ == leading_window_chars(text@),
{
    let mut window = String::new();
    let mut count: usize = 0;
    for c in it: text.chars()
        invariant
            it.seq() == text@,
            it.index() <= text@.len(),
            count <= LEADING_WINDOW_CHARS,
            count == (if it.index() <= LEADING_WINDOW_CHARS {
                it.index() as int
            } else {
                LEADING_WINDOW_CHARS as int
            }),
            window@ == text@.take(count as int),
    {
        if count < LEADING_WINDOW_CHARS {
            proof {
                assert(text@.take(count + 1) =~= text@.take(count as int).push(c));
            }
            push_char(&mut window, c);
            count = count + 1;
        }
    }
    assert(text@.take(text@.len() as int) =~= text@);
    window
}

/// A title and evidence joined by a newline, or whichever of them is not
/// empty.
pub open spec fn titled_chars(title: Seq<char>, text: Seq<char>) -> Seq<char> {
    if title.len() == 0 {
        text
    } else if text.len() == 0 {
        title
    } else {
        title.push('\n') + text
    }
}

/// Joins a title and evidence text.
pub fn titled_text(title: &str, text: &str) -> (joined: String)
    ensures
        joined@ == titled_chars(title@, text@),
{
    if title.is_empty() {
        return text.to_owned();
    }
    if text.is_empty() {
        return title.to_owned();
    }
    let mut joined = title.to_owned();
    push_char(&mut joined, '\n');
    joined.append(text);
    joined
}

/// One step of whitespace collapsing: the text so far, and whether a
/// whitespace run follows it.
pub open spec fn collapse_step(state: (Seq<char>, bool), c: char) -> (Seq<char>, bool) {
    if is_white_space(c) {
        (state.0, state.0.len() > 0)
    } else if state.1 {
        (state.0.push(' ').push(c), false)
    } else {
        (state.0.push(c), false)
    }
}

pub open spec fn collapse_prefix(cs: Seq<char>, n: nat) -> (Seq<char>, bool)
    decreases n,
{
    if n == 0 || n > cs.len() {
        (Seq::empty(), false)
    } else {
        collapse_step(collapse_prefix(cs, (n - 1) as nat), cs[n - 1])
    }
}

/// The words of the text (its whitespace-free runs) joined by single
/// spaces.
pub open spec fn collapsed_chars(cs: Seq<char>) -> Seq<char> {
    collapse_prefix(cs, cs.len()).0
}

/// Collapses whitespace runs for preview length math.
pub fn collapse_whitespace(text: &str) -> (collapsed: String)
    ensures
        collapsed@ == collapsed_chars(text@),
{
    let mut collapsed = String::new();
    let mut pending = false;
    for c in it: text.chars()
        invariant
            it.seq() == text@,
            it.index() <= text@.len(),
            (collapsed@, pending) == collapse_prefix(text@, it.index() as nat),
    {
        if is_whitespace(c) {
            pending = !collapsed.as_str().is_empty();
        } else {
            if pending {
                push_char(&mut collapsed, ' ');
            }
            push_char(&mut collapsed, c);
            pending = false;
        }
    }
    collapsed
}

/// Tokenizer state: tokens so far, the word being read and where it began.
pub open spec fn token_step(
    state: (Seq<(Seq<char>, int, int)>, Seq<char>, Option<int>),
    cs: Seq<char>,
    index: int,
) -> (Seq<(Seq<char>, int, int)>, Seq<char>, Option<int>) {
    let c = cs[index];
    if is_alphanumeric_char(c) {
        (state.0, state.1 + lowercase_chars(c), if state.2 is None {
            Some(index)
        } else {
            state.2
        })
    } else {
        match state.2 {
            Some(s) => (state.0.push((state.1, s, index)), Seq::empty(), None),
            None => state,
        }
    }
}

pub open spec fn token_prefix(cs: Seq<char>, n: nat) -> (Seq<(Seq<char>, int, int)>, Seq<char>, Option<int>)
    decreases n,
{
    if n == 0 || n > cs.len() {
        (Seq::empty(), Seq::empty(), None)
    } else {
        token_step(token_prefix(cs, (n - 1) as nat), cs, n - 1)
    }
}

/// The words of the text: maximal runs of alphanumeric characters, each
/// lowercased, with their character spans.
pub open spec fn preview_token_views(cs: Seq<char>) -> Seq<(Seq<char>, int, int)> {
    let state = token_prefix(cs, cs.len());
    match state.2 {
        Some(s) => state.0.push((state.1, s, cs.len() as int)),
        None => state.0,
    }
}

/// Tokenizes text for preview scoring.
pub fn preview_tokens(text: &str) -> (tokens: Vec<PreviewToken>)
    ensures
        token_views(tokens@) == preview_token_views(text@),
{
    let mut tokens: Vec<PreviewToken> = Vec::new();
    let mut term = String::new();
    let mut start: Option<usize> = None;
    let mut char_count: usize = 0;
    let chars = char_vec(text);
    let mut index: usize = 0;
    while index < chars.len()
        invariant
            chars@ == text@,
            index <= chars@.len(),
            (token_views(tokens@), term@, match start {
                Some(s) => Some(s as int),
                None => None,
            }) == token_prefix(text@, index as nat),
            char_count == index,
            start matches Some(s) ==> s < index,
        decreases chars@.len() - index,
    {
        let character = chars[index];
        char_count = index + 1;
        if is_alphanumeric(character) {
            if start.is_none() {
                start = Some(index);
            }
            let lower = to_lowercase(character);
            term.append(lower.as_str());
        } else {
            match start {
                Some(token_start) => {
                    let ghost before = token_views(tokens@);
                    let mut taken = String::new();
                    std::mem::swap(&mut taken, &mut term);
                    let ghost word = taken@;
                    tokens.push(PreviewToken { term: taken, start: token_start, end: index });
                    start = None;
                    assert(token_views(tokens@) =~= before.push((word, token_start as int, index as int)));
                },
                None => {},
            }
        }
        index = index + 1;
    }
    if let Some(token_start) = start {
        let ghost before = token_views(tokens@);
        let ghost word = term@;
        tokens.push(PreviewToken { term, start: token_start, end: char_count });
        assert(token_views(tokens@) =~= before.push((word, token_start as int, text@.len() as int)));
    }
    tokens
}

/// The distinct terms of the query.
pub open spec fn term_set(query: Seq<char>) -> Set<Seq<char>> {
    preview_token_views(query).map_values(|token: (Seq<char>, int, int)| token.0).to_set()
}

/// Pushing a value onto a sequence adds exactly that value.
pub proof fn lemma_push_contains(s: Seq<Seq<char>>, x: Seq<char>)
    ensures
        forall|t: Seq<char>| #[trigger] s.push(x).contains(t) <==> (s.contains(t) || t == x),
{
    assert forall|t: Seq<char>| #[trigger] s.push(x).contains(t) <==> (s.contains(t) || t == x) by {
        if s.push(x).contains(t) {
            let j = choose|j: int| 0 <= j < s.push(x).len() && s.push(x)[j] == t;
            if j < s.len() {
                assert(s[j] == t);
            }
        }
        if s.contains(t) {
            let j = choose|j: int| 0 <= j < s.len() && s[j] == t;
            assert(s.push(x)[j] == t);
        }
        if t == x {
            assert(s.push(x)[s.len() as int] == t);
        }
    }
}

/// Pushing a value that is not there keeps a sequence free of duplicates.
pub proof fn lemma_push_fresh(s: Seq<Seq<char>>, x: Seq<char>)
    requires
        s.no_duplicates(),
        !s.contains(x),
    ensures
        s.push(x).no_duplicates(),
{
    let t = s.push(x);
    assert forall|a: int, b: int| 0 <= a < t.len() && 0 <= b < t.len() && a != b implies t[a] != t[b] by {
        if a < s.len() && b < s.len() {
            assert(t[a] == s[a] && t[b] == s[b]);
        } else if a < s.len() {
            assert(t[a] == s[a]);
        } else {
            assert(t[b] == s[b]);
        }
    }
}

/// Whether a term is among the given strings.
fn contains_term(terms: &Vec<String>, term: &String) -> (found: bool)
    ensures
        found == string_views(terms@).contains(term@),
{
    let mut k: usize = 0;
    while k < terms.len()
        invariant
            k <= terms@.len(),
            forall|j: int| 0 <= j < k ==> terms@[j]@ != term@,
        decreases terms@.len() - k,
    {
        if terms[k] == *term {
            assert(string_views(terms@)[k as int] == term@);
            return true;
        }
        k = k + 1;
    }
    proof {
        if string_views(terms@).contains(term@) {
            let j = choose|j: int| 0 <= j < string_views(terms@).len() && string_views(terms@)[j] == term@;
            assert(terms@[j]@ == term@);
        }
    }
    false
}

/// Returns deduplicated query terms.
pub fn query_terms(query: &str) -> (terms: Vec<String>)
    ensures
        string_views(terms@).no_duplicates(),
        forall|term: Seq<char>| string_views(terms@).contains(term) <==> #[trigger] term_set(query@).contains(term),
{
    let tokens = preview_tokens(query);
    let ghost words = preview_token_views(query@).map_values(|token: (Seq<char>, int, int)| token.0);
    let mut terms: Vec<String> = Vec::new();
    let mut i: usize = 0;
    while i < tokens.len()
        invariant
            i <= tokens@.len(),
            token_views(tokens@) == preview_token_views(query@),
            words == preview_token_views(query@).map_values(|token: (Seq<char>, int, int)| token.0),
            string_views(terms@).no_duplicates(),
            forall|term: Seq<char>| string_views(terms@).contains(term) <==> #[trigger] words.take(i as int).contains(term),
        decreases tokens@.len() - i,
    {
        let ghost before = string_views(terms@);
        assert(words[i as int] == tokens@[i as int].term@);
        assert(words.take(i + 1) =~= words.take(i as int).push(words[i as int]));
        proof {
            lemma_push_contains(words.take(i as int), words[i as int]);
        }
        if !contains_term(&terms, &tokens[i].term) {
            terms.push(tokens[i].term.clone());
            assert(string_views(terms@) =~= before.push(words[i as int]));
            proof {
                lemma_push_fresh(before, words[i as int]);
                lemma_push_contains(before, words[i as int]);
            }
        }
        i = i + 1;
    }
    assert(words.take(i as int) =~= words);
    proof {
        assert forall|term: Seq<char>| string_views(terms@).contains(term) <==> #[trigger] term_set(query@).contains(term) by {
            assert(words.to_set().contains(term) <==> words.contains(term));
        }
    }
    terms
}

/// The end of the window that starts at `start`: as far as the preview
/// budget reaches once the ellipses it needs are paid for.
pub open spec fn window_end_index(total: int, start: int) -> int {
    let prefix = if start > 0 {
        1int
    } else {
        0int
    };
    let budget_without_suffix = PREVIEW_MAX_CHARS - prefix;
    let suffix = if start + budget_without_suffix < total {
        1int
    } else {
        0int
    };
    let budget = PREVIEW_MAX_CHARS - (prefix + suffix);
    if start + budget < total {
        start + budget
    } else {
        total
    }
}

/// Returns the end char index for a scored preview window.
fn preview_window_end(total_chars: usize, start: usize) -> (end: usize)
    ensures
        end == window_end_index(total_chars as int, start as int),
{
    let prefix_chars: usize = if start > 0 {
        1
    } else {
        0
    };
    let budget_without_suffix = PREVIEW_MAX_CHARS.saturating_sub(prefix_chars);
    let suffix_chars: usize = if start.saturating_add(budget_without_suffix) < total_chars {
        1
    } else {
        0
    };
    let budget = PREVIEW_MAX_CHARS.saturating_sub(prefix_chars.saturating_add(suffix_chars));
    let end = start.saturating_add(budget);
    if end < total_chars {
        end
    } else {
        total_chars
    }
}

/// Query terms of the tokens from `from` on that end by `end`, in order.
pub open spec fn window_matches(
    tokens: Seq<(Seq<char>, int, int)>,
    terms: Set<Seq<char>>,
    from: int,
    end: int,
) -> Seq<Seq<char>>
    decreases tokens.len() - from,
{
    if from < 0 || from >= tokens.len() || tokens[from].2 > end {
        Seq::empty()
    } else {
        (if terms.contains(tokens[from].0) {
            seq![tokens[from].0]
        } else {
            Seq::<Seq<char>>::empty()
        }) + window_matches(tokens, terms, from + 1, end)
    }
}

/// How many different values a sequence holds.
pub open spec fn distinct_count(s: Seq<Seq<char>>) -> nat
    decreases s.len(),
{
    if s.len() == 0 {
        0
    } else {
        distinct_count(s.drop_last()) + if s.drop_last().contains(s.last()) {
            0nat
        } else {
            1nat
        }
    }
}

/// The window that starts at token `i`, as (start, end, distinct terms,
/// term occurrences).
pub open spec fn window_at(tokens: Seq<(Seq<char>, int, int)>, terms: Set<Seq<char>>, total: int, i: int) -> (
    int,
    int,
    int,
    int,
) {
    let end = window_end_index(total, tokens[i].1);
    let matches = window_matches(tokens, terms, i, end);
    (tokens[i].1, end, distinct_count(matches) as int, matches.len() as int)
}

/// Whether a window beats the best so far: more distinct terms, or as many
/// and more occurrences.
pub open spec fn beats(window: (int, int, int, int), best: Option<(int, int, int, int)>) -> bool {
    match best {
        None => true,
        Some(b) => window.2 > b.2 || (window.2 == b.2 && window.3 > b.3),
    }
}

/// The best window among those starting at the first `n` tokens; the
/// earliest wins ties.
pub open spec fn best_window_prefix(
    tokens: Seq<(Seq<char>, int, int)>,
    terms: Set<Seq<char>>,
    total: int,
    n: nat,
) -> Option<(int, int, int, int)>
    decreases n,
{
    if n == 0 || n > tokens.len() {
        None
    } else {
        let best = best_window_prefix(tokens, terms, total, (n - 1) as nat);
        let window = window_at(tokens, terms, total, n - 1);
        if beats(window, best) {
            Some(window)
        } else {
            best
        }
    }
}

pub open spec fn window_view(window: PreviewWindow) -> (int, int, int, int) {
    (window.start as int, window.end as int, window.distinct as int, window.occurrences as int)
}

/// Well-formed tokens: spans in order, within the text.
pub open spec fn tokens_in_text(tokens: Seq<(Seq<char>, int, int)>, total: int) -> bool {
    forall|i: int| 0 <= i < tokens.len() ==> 0 <= #[trigger] tokens[i].1 <= tokens[i].2 <= total
}

/// Finds the highest-scoring preview window.
fn best_preview_window(tokens: &Vec<PreviewToken>, terms: &Vec<String>, total_chars: usize) -> (best: Option<
    PreviewWindow,
>)
    ensures
        ({
            let set = string_views(terms@).to_set();
            match best {
                Some(w) => best_window_prefix(token_views(tokens@), set, total_chars as int, tokens@.len())
                    == Some(window_view(w)),
                None => best_window_prefix(token_views(tokens@), set, total_chars as int, tokens@.len()) is None,
            }
        }),
{
    let ghost set = string_views(terms@).to_set();
    let ghost views = token_views(tokens@);
    let mut best: Option<PreviewWindow> = None;
    let mut index: usize = 0;
    while index < tokens.len()
        invariant
            index <= tokens@.len(),
            set == string_views(terms@).to_set(),
            views == token_views(tokens@),
            match best {
                Some(w) => best_window_prefix(views, set, total_chars as int, index as nat) == Some(
                    window_view(w),
                ),
                None => best_window_prefix(views, set, total_chars as int, index as nat) is None,
            },
        decreases tokens@.len() - index,
    {
        let token_start = tokens[index].start;
        let end = preview_window_end(total_chars, token_start);
        let mut present: Vec<String> = Vec::new();
        let mut occurrences: usize = 0;
        let mut j = index;
        let ghost mut matched: Seq<Seq<char>> = Seq::empty();
        while j < tokens.len()
            invariant
                index <= j <= tokens@.len(),
                set == string_views(terms@).to_set(),
                views == token_views(tokens@),
                end == window_end_index(total_chars as int, views[index as int].1),
                matched + window_matches(views, set, j as int, end as int) == window_matches(
                    views,
                    set,
                    index as int,
                    end as int,
                ),
                occurrences == matched.len(),
                occurrences <= j - index,
                present@.len() == distinct_count(matched),
                string_views(present@).no_duplicates(),
                forall|t: Seq<char>| string_views(present@).contains(t) <==> #[trigger] matched.contains(t),
            ensures
                index <= j <= tokens@.len(),
                j == tokens@.len() || views[j as int].2 > end,
                matched + window_matches(views, set, j as int, end as int) == window_matches(
                    views,
                    set,
                    index as int,
                    end as int,
                ),
                present@.len() == distinct_count(matched),
                occurrences == matched.len(),
            decreases tokens@.len() - j,
        {
            if tokens[j].end > end {
                assert(views[j as int] == token_view(tokens@[j as int]));
                break;
            }
            let ghost rest = window_matches(views, set, j + 1, end as int);
            assert(views[j as int] == token_view(tokens@[j as int]));
            if contains_term(terms, &tokens[j].term) {
                proof {
                    assert(set.contains(views[j as int].0));
                }
                let ghost before = string_views(present@);
                let ghost next = matched.push(tokens@[j as int].term@);
                assert(next.drop_last() =~= matched);
                proof {
                    lemma_push_contains(matched, tokens@[j as int].term@);
                }
                if !contains_term(&present, &tokens[j].term) {
                    present.push(tokens[j].term.clone());
                    assert(string_views(present@) =~= before.push(tokens@[j as int].term@));
                    proof {
                        lemma_push_fresh(before, tokens@[j as int].term@);
                        lemma_push_contains(before, tokens@[j as int].term@);
                    }
                }
                occurrences = occurrences + 1;
                proof {
                    assert(matched + window_matches(views, set, j as int, end as int) =~= next + rest);
                    matched = next;
                }
            } else {
                proof {
                    if set.contains(views[j as int].0) {
                        assert(string_views(terms@).contains(tokens@[j as int].term@));
                    }
                    assert(matched + window_matches(views, set, j as int, end as int) =~= matched + rest);
                }
            }
            j = j + 1;
        }
        proof {
            assert(window_matches(views, set, j as int, end as int) =~= Seq::<Seq<char>>::empty());
            assert(matched =~= window_matches(views, set, index as int, end as int));
        }
        let window = PreviewWindow { start: token_start, end, distinct: present.len(), occurrences };
        let replace = match best {
            None => true,
            Some(b) => window.distinct > b.distinct || (window.distinct == b.distinct && window.occurrences
                > b.occurrences),
        };
        if replace {
            best = Some(window);
        }
        index = index + 1;
    }
    best
}

/// The span from the first to the last query term among the first `n`
/// tokens that lie inside `[start, end]`.
pub open spec fn focus_prefix(
    tokens: Seq<(Seq<char>, int, int)>,
    terms: Set<Seq<char>>,
    start: int,
    end: int,
    n: nat,
) -> Option<(int, int)>
    decreases n,
{
    if n == 0 || n > tokens.len() {
        None
    } else {
        let span = focus_prefix(tokens, terms, start, end, (n - 1) as nat);
        let token = tokens[n - 1];
        if token.1 < start || token.2 > end || !terms.contains(token.0) {
            span
        } else {
            match span {
                Some(s) => Some((s.0, token.2)),
                None => Some((token.1, token.2)),
            }
        }
    }
}

/// Returns the matching token span inside a scored window.
fn focus_span(tokens: &Vec<PreviewToken>, terms: &Vec<String>, start: usize, end: usize) -> (span: Option<
    (usize, usize),
>)
    ensures
        ({
            let set = string_views(terms@).to_set();
            match span {
                Some(s) => focus_prefix(token_views(tokens@), set, start as int, end as int, tokens@.len())
                    == Some((s.0 as int, s.1 as int)),
                None => focus_prefix(token_views(tokens@), set, start as int, end as int, tokens@.len()) is None,
            }
        }),
{
    let ghost set = string_views(terms@).to_set();
    let ghost views = token_views(tokens@);
    let mut span: Option<(usize, usize)> = None;
    let mut i: usize = 0;
    while i < tokens.len()
        invariant
            i <= tokens@.len(),
            set == string_views(terms@).to_set(),
            views == token_views(tokens@),
            match span {
                Some(s) => focus_prefix(views, set, start as int, end as int, i as nat) == Some(
                    (s.0 as int, s.1 as int),
                ),
                None => focus_prefix(views, set, start as int, end as int, i as nat) is None,
            },
        decreases tokens@.len() - i,
    {
        assert(views[i as int] == token_view(tokens@[i as int]));
        let token = &tokens[i];
        let inside = token.start >= start && token.end <= end;
        if inside && contains_term(terms, &token.term) {
            span = Some(
                match span {
                    Some((first, _last)) => (first, token.end),
                    None => (token.start, token.end),
                },
            );
        } else {
            proof {
                if inside {
                    assert(!set.contains(token.term@));
                }
            }
        }
        i = i + 1;
    }
    span
}

/// `a - b`, or zero when `b` is larger.
pub open spec fn minus_or_zero(a: int, b: int) -> int {
    if a > b {
        a - b
    } else {
        0
    }
}

/// The smaller of two integers.
pub open spec fn min_int(a: int, b: int) -> int {
    if a < b {
        a
    } else {
        b
    }
}

/// The first whitespace index in `[lo, hi)` within the text.
pub open spec fn first_white_space(cs: Seq<char>, lo: int, hi: int) -> Option<int>
    decreases hi - lo,
{
    if lo < 0 || lo >= hi || lo >= cs.len() {
        None
    } else if is_white_space(cs[lo]) {
        Some(lo)
    } else {
        first_white_space(cs, lo + 1, hi)
    }
}

/// The last whitespace index in `[lo, hi)` within the text.
pub open spec fn last_white_space_before(cs: Seq<char>, lo: int, hi: int) -> Option<int>
    decreases hi - lo,
{
    if hi <= lo || lo < 0 {
        None
    } else if hi - 1 < cs.len() && is_white_space(cs[hi - 1]) {
        Some(hi - 1)
    } else {
        last_white_space_before(cs, lo, hi - 1)
    }
}

/// A preview start moved forward past a partly cut word.
pub open spec fn snapped_start(cs: Seq<char>, start: int, end: int) -> int {
    if start == 0 || (start - 1 < cs.len() && is_white_space(cs[start - 1])) {
        start
    } else {
        match first_white_space(cs, start, end) {
            Some(index) => index + 1,
            None => start,
        }
    }
}

/// A preview end moved back before a partly cut word.
pub open spec fn snapped_end(cs: Seq<char>, total: int, start: int, end: int) -> int {
    if end == total || (end < cs.len() && is_white_space(cs[end])) {
        end
    } else {
        match last_white_space_before(cs, start, end) {
            Some(index) => index,
            None => end,
        }
    }
}

/// A preview range snapped to word boundaries where that leaves text.
pub open spec fn snapped_range(cs: Seq<char>, total: int, start: int, end: int) -> (int, int) {
    let s = snapped_start(cs, start, end);
    let e = snapped_end(cs, total, s, end);
    if s < e {
        (s, e)
    } else {
        (start, end)
    }
}

/// The text of a preview range, snapped, with an ellipsis on each side that
/// was cut.
pub open spec fn cut_chars(cs: Seq<char>, total: int, start: int, end: int) -> Seq<char> {
    let range = snapped_range(cs, total, start, end);
    (if range.0 > 0 {
        seq![ELLIPSIS]
    } else {
        Seq::empty()
    }) + cs.subrange(range.0, range.1) + (if range.1 < total {
        seq![ELLIPSIS]
    } else {
        Seq::empty()
    })
}

/// The characters a preview range shows, ellipses included.
pub open spec fn shown_chars(total: int, start: int, end: int) -> int {
    (if start > 0 {
        1int
    } else {
        0int
    }) + (end - start) + (if end < total {
        1int
    } else {
        0int
    })
}

proof fn lemma_first_white_space(cs: Seq<char>, lo: int, hi: int)
    ensures
        first_white_space(cs, lo, hi) matches Some(i) ==> lo <= i < hi && i < cs.len(),
    decreases hi - lo,
{
    if !(lo < 0 || lo >= hi || lo >= cs.len()) && !is_white_space(cs[lo]) {
        lemma_first_white_space(cs, lo + 1, hi);
    }
}

proof fn lemma_last_white_space_before(cs: Seq<char>, lo: int, hi: int)
    ensures
        last_white_space_before(cs, lo, hi) matches Some(i) ==> lo <= i < hi && i < cs.len(),
    decreases hi - lo,
{
    if !(hi <= lo || lo < 0) && !(hi - 1 < cs.len() && is_white_space(cs[hi - 1])) {
        lemma_last_white_space_before(cs, lo, hi - 1);
    }
}

/// Snapping keeps a range inside itself, so it shows no more characters.
pub proof fn lemma_snapped_range(cs: Seq<char>, total: int, start: int, end: int)
    requires
        0 <= start <= end <= total,
        total == cs.len(),
    ensures
        start <= snapped_range(cs, total, start, end).0 <= snapped_range(cs, total, start, end).1 <= end,
        shown_chars(total, snapped_range(cs, total, start, end).0, snapped_range(cs, total, start, end).1)
            <= shown_chars(total, start, end),
        cut_chars(cs, total, start, end).len() == shown_chars(
            total,
            snapped_range(cs, total, start, end).0,
            snapped_range(cs, total, start, end).1,
        ),
{
    lemma_first_white_space(cs, start, end);
    let s = snapped_start(cs, start, end);
    lemma_last_white_space_before(cs, s, end);
}

/// A preview range centred on `center`, shrunk by the ellipses it needs.
pub open spec fn centered_range(total: int, center: int) -> (int, int) {
    let budget = PREVIEW_MAX_CHARS - 2;
    let start = minus_or_zero(center, budget / 2);
    let end = min_int(start + budget, total);
    let start = if end == total {
        minus_or_zero(total, budget)
    } else {
        start
    };
    let ellipsis_chars = (if start > 0 {
        1int
    } else {
        0int
    }) + (if end < total {
        1int
    } else {
        0int
    });
    let budget = PREVIEW_MAX_CHARS - ellipsis_chars;
    let start = minus_or_zero(center, budget / 2);
    let end = min_int(start + budget, total);
    let start = if end == total {
        minus_or_zero(total, budget)
    } else {
        start
    };
    (start, end)
}

/// A centred range lies in the text and shows at most the preview budget.
pub proof fn lemma_centered_range(total: int, center: int)
    requires
        0 <= center <= total,
    ensures
        0 <= centered_range(total, center).0 <= centered_range(total, center).1 <= total,
        shown_chars(total, centered_range(total, center).0, centered_range(total, center).1)
            <= PREVIEW_MAX_CHARS,
{
}

/// Returns a centered preview range.
fn centered_preview_range(total_chars: usize, center: usize) -> (range: (usize, usize))
    ensures
        (range.0 as int, range.1 as int) == centered_range(total_chars as int, center as int),
{
    let mut budget = PREVIEW_MAX_CHARS.saturating_sub(2);
    let mut start = center.saturating_sub(budget / 2);
    let mut end = start.saturating_add(budget);
    if end > total_chars {
        end = total_chars;
    }
    if end == total_chars {
        start = total_chars.saturating_sub(budget);
    }
    let ellipsis_chars: usize = (if start > 0 {
        1usize
    } else {
        0usize
    }) + (if end < total_chars {
        1usize
    } else {
        0usize
    });
    budget = PREVIEW_MAX_CHARS.saturating_sub(ellipsis_chars);
    start = center.saturating_sub(budget / 2);
    end = start.saturating_add(budget);
    if end > total_chars {
        end = total_chars;
    }
    if end == total_chars {
        start = total_chars.saturating_sub(budget);
    }
    (start, end)
}

/// Returns a character at a char index.
fn char_at(chars: &Vec<char>, index: usize) -> (c: Option<char>)
    ensures
        c == (if index < chars@.len() {
            Some(chars@[index as int])
        } else {
            None::<char>
        }),
{
    if index < chars.len() {
        Some(chars[index])
    } else {
        None
    }
}

/// Snaps a preview start to a word boundary.
fn snap_preview_start(chars: &Vec<char>, start: usize, end: usize) -> (snapped: usize)
    ensures
        snapped == snapped_start(chars@, start as int, end as int),
{
    if start == 0 {
        return start;
    }
    if let Some(previous) = char_at(chars, start - 1) {
        if is_whitespace(previous) {
            return start;
        }
    }
    let mut index = start;
    while index < end && index < chars.len()
        invariant
            start <= index,
            start > 0,
            !(start - 1 < chars@.len() && is_white_space(chars@[start - 1])),
            first_white_space(chars@, start as int, end as int) == first_white_space(
                chars@,
                index as int,
                end as int,
            ),
        decreases end - index,
    {
        if is_whitespace(chars[index]) {
            return index + 1;
        }
        index = index + 1;
    }
    start
}

/// Snaps a preview end to a word boundary.
fn snap_preview_end(chars: &Vec<char>, total_chars: usize, start: usize, end: usize) -> (snapped: usize)
    ensures
        snapped == snapped_end(chars@, total_chars as int, start as int, end as int),
{
    if end == total_chars {
        return end;
    }
    if let Some(next) = char_at(chars, end) {
        if is_whitespace(next) {
            return end;
        }
    }
    if start >= end {
        return end;
    }
    let mut boundary: Option<usize> = None;
    let mut index = start;
    while index < end && index < chars.len()
        invariant
            start <= index <= end,
            match boundary {
                Some(b) => last_white_space_before(chars@, start as int, index as int) == Some(b as int),
                None => last_white_space_before(chars@, start as int, index as int) is None,
            },
        decreases end - index,
    {
        if is_whitespace(chars[index]) {
            boundary = Some(index);
        }
        index = index + 1;
    }
    proof {
        lemma_last_white_space_tail(chars@, start as int, index as int, end as int);
    }
    match boundary {
        Some(b) => b,
        None => end,
    }
}

/// Past the text's end, no index can hold whitespace.
proof fn lemma_last_white_space_tail(cs: Seq<char>, lo: int, mid: int, hi: int)
    requires
        lo <= mid,
        mid <= hi,
        mid == hi || mid >= cs.len(),
    ensures
        last_white_space_before(cs, lo, hi) == last_white_space_before(cs, lo, mid),
    decreases hi - mid,
{
    if mid < hi {
        lemma_last_white_space_tail(cs, lo, mid, hi - 1);
    }
}

/// Snaps a preview range to word boundaries where possible.
fn snap_preview_range(chars: &Vec<char>, total_chars: usize, start: usize, end: usize) -> (range: (usize, usize))
    ensures
        (range.0 as int, range.1 as int) == snapped_range(chars@, total_chars as int, start as int, end as int),
{
    let snapped_start = snap_preview_start(chars, start, end);
    let snapped_end = snap_preview_end(chars, total_chars, snapped_start, end);
    if snapped_start < snapped_end {
        return (snapped_start, snapped_end);
    }
    (start, end)
}

/// Cuts a preview range and adds ellipses.
fn cut_preview(chars: &Vec<char>, total_chars: usize, start: usize, end: usize) -> (preview: String)
    requires
        start <= end <= total_chars,
        total_chars == chars@.len(),
    ensures
        preview@ == cut_chars(chars@, total_chars as int, start as int, end as int),
{
    proof {
        lemma_snapped_range(chars@, total_chars as int, start as int, end as int);
    }
    let (from, to) = snap_preview_range(chars, total_chars, start, end);
    let mut preview = String::new();
    if from > 0 {
        push_char(&mut preview, ELLIPSIS);
    }
    let ghost prefix = preview@;
    let mut index = from;
    while index < to
        invariant
            from <= index <= to,
            to <= chars@.len(),
            preview@ == prefix + chars@.subrange(from as int, index as int),
        decreases to - index,
    {
        push_char(&mut preview, chars[index]);
        assert(chars@.subrange(from as int, index + 1) =~= chars@.subrange(from as int, index as int).push(
            chars@[index as int],
        ));
        index = index + 1;
    }
    if to < total_chars {
        push_char(&mut preview, ELLIPSIS);
    }
    assert(preview@ =~= cut_chars(chars@, total_chars as int, start as int, end as int));
    preview
}

/// The head of the text as a preview.
pub open spec fn head_chars(cs: Seq<char>) -> Seq<char> {
    cut_chars(cs, cs.len() as int, 0, min_int(PREVIEW_MAX_CHARS - 1, cs.len() as int))
}

/// A preview centred between two character positions.
pub open spec fn centered_chars(cs: Seq<char>, focus_start: int, focus_end: int) -> Seq<char> {
    let center = focus_start + minus_or_zero(focus_end, focus_start) / 2;
    let range = centered_range(cs.len() as int, center);
    cut_chars(cs, cs.len() as int, range.0, range.1)
}

/// The preview of evidence for a query: the whitespace-collapsed evidence
/// when it fits the budget; else the stretch around the query terms of the
/// window with the most distinct terms (then occurrences); else the head.
/// No preview for evidence without text.
pub open spec fn built_preview(query: Seq<char>, evidence: Seq<char>) -> Option<Seq<char>> {
    let collapsed = collapsed_chars(evidence);
    let total = collapsed.len() as int;
    if total == 0 {
        None
    } else if total <= PREVIEW_MAX_CHARS {
        Some(collapsed)
    } else {
        let terms = term_set(query);
        let tokens = preview_token_views(collapsed);
        match best_window_prefix(tokens, terms, total, tokens.len()) {
            None => Some(head_chars(collapsed)),
            Some(window) => if window.2 == 0 {
                Some(head_chars(collapsed))
            } else {
                match focus_prefix(tokens, terms, window.0, window.1, tokens.len()) {
                    None => Some(head_chars(collapsed)),
                    Some(span) => Some(centered_chars(collapsed, span.0, span.1)),
                }
            },
        }
    }
}

proof fn lemma_token_prefix_in_text(cs: Seq<char>, n: nat)
    requires
        n <= cs.len(),
    ensures
        tokens_in_text(token_prefix(cs, n).0, n as int),
        token_prefix(cs, n).2 matches Some(s) ==> 0 <= s < n,
    decreases n,
{
    if n > 0 {
        lemma_token_prefix_in_text(cs, (n - 1) as nat);
        let state = token_prefix(cs, (n - 1) as nat);
        let next = token_prefix(cs, n);
        assert forall|i: int| 0 <= i < next.0.len() implies 0 <= #[trigger] next.0[i].1 <= next.0[i].2 <= n by {
            if i < state.0.len() {
                assert(next.0[i] == state.0[i] || next.0 == state.0);
            }
        }
    }
}

/// Preview tokens lie inside the text.
pub proof fn lemma_preview_tokens_in_text(cs: Seq<char>)
    ensures
        tokens_in_text(preview_token_views(cs), cs.len() as int),
{
    lemma_token_prefix_in_text(cs, cs.len());
    let state = token_prefix(cs, cs.len());
    let tokens = preview_token_views(cs);
    assert forall|i: int| 0 <= i < tokens.len() implies 0 <= #[trigger] tokens[i].1 <= tokens[i].2 <= cs.len() by {
        if i < state.0.len() {
            assert(tokens[i] == state.0[i]);
        }
    }
}

proof fn lemma_focus_in_text(
    tokens: Seq<(Seq<char>, int, int)>,
    terms: Set<Seq<char>>,
    start: int,
    end: int,
    n: nat,
    total: int,
)
    requires
        tokens_in_text(tokens, total),
    ensures
        focus_prefix(tokens, terms, start, end, n) matches Some(span) ==> 0 <= span.0 <= total && 0 <= span.1
            <= total,
    decreases n,
{
    if n > 0 && n <= tokens.len() {
        lemma_focus_in_text(tokens, terms, start, end, (n - 1) as nat, total);
        assert(0 <= tokens[n - 1].1 <= tokens[n - 1].2 <= total);
    }
}

/// A preview never shows more than `PREVIEW_MAX_CHARS` characters, ellipses
/// included, and is missing only when the evidence has no text.
pub proof fn preview_fits_budget(query: Seq<char>, evidence: Seq<char>)
    ensures
        built_preview(query, evidence) is None <==> all_white_space_or_empty(evidence),
        built_preview(query, evidence) matches Some(p) ==> 0 < p.len() <= PREVIEW_MAX_CHARS,
{
    let collapsed = collapsed_chars(evidence);
    let total = collapsed.len() as int;
    lemma_collapsed_empty(evidence, evidence.len());
    if total > PREVIEW_MAX_CHARS {
        let terms = term_set(query);
        let tokens = preview_token_views(collapsed);
        lemma_snapped_range(collapsed, total, 0, min_int(PREVIEW_MAX_CHARS - 1, total));
        lemma_preview_tokens_in_text(collapsed);
        match best_window_prefix(tokens, terms, total, tokens.len()) {
            None => {},
            Some(window) => {
                lemma_focus_in_text(tokens, terms, window.0, window.1, tokens.len(), total);
                match focus_prefix(tokens, terms, window.0, window.1, tokens.len()) {
                    None => {},
                    Some(span) => {
                        let center = span.0 + minus_or_zero(span.1, span.0) / 2;
                        lemma_centered_range(total, center);
                        let range = centered_range(total, center);
                        lemma_snapped_range(collapsed, total, range.0, range.1);
                    },
                }
            },
        }
    }
}

/// Whether a text holds only whitespace, or nothing.
pub open spec fn all_white_space_or_empty(cs: Seq<char>) -> bool {
    forall|i: int| 0 <= i < cs.len() ==> is_white_space(#[trigger] cs[i])
}

proof fn lemma_collapsed_empty(cs: Seq<char>, n: nat)
    requires
        n <= cs.len(),
    ensures
        collapse_prefix(cs, n).0.len() == 0 <==> forall|i: int| 0 <= i < n ==> is_white_space(#[trigger] cs[i]),
        collapse_prefix(cs, n).1 ==> collapse_prefix(cs, n).0.len() > 0,
    decreases n,
{
    if n > 0 {
        lemma_collapsed_empty(cs, (n - 1) as nat);
        if !is_white_space(cs[n - 1]) {
            assert(!(forall|i: int| 0 <= i < n ==> is_white_space(#[trigger] cs[i])));
        }
        if collapse_prefix(cs, (n - 1) as nat).0.len() > 0 {
            let j = choose|j: int| 0 <= j < n - 1 && !is_white_space(#[trigger] cs[j]);
            assert(!is_white_space(cs[j]));
        }
    }
}

/// Builds a head preview.
fn preview_head(chars: &Vec<char>, total_chars: usize) -> (preview: String)
    requires
        total_chars == chars@.len(),
    ensures
        preview@ == head_chars(chars@),
{
    let limit = PREVIEW_MAX_CHARS.saturating_sub(1);
    let end = if limit < total_chars {
        limit
    } else {
        total_chars
    };
    cut_preview(chars, total_chars, 0, end)
}

/// Builds a centered preview.
fn preview_centered(chars: &Vec<char>, total_chars: usize, focus_start: usize, focus_end: usize) -> (preview:
    String)
    requires
        total_chars == chars@.len(),
        focus_start <= total_chars,
        focus_end <= total_chars,
    ensures
        preview@ == centered_chars(chars@, focus_start as int, focus_end as int),
{
    let center = focus_start + focus_end.saturating_sub(focus_start) / 2;
    proof {
        lemma_centered_range(total_chars as int, center as int);
    }
    let (start, end) = centered_preview_range(total_chars, center);
    cut_preview(chars, total_chars, start, end)
}

/// Builds a bounded preview from evidence text.
pub fn build_preview(query: &str, evidence: &str) -> (preview: Option<String>)
    ensures
        match preview {
            Some(p) => built_preview(query@, evidence@) == Some(p@),
            None => built_preview(query@, evidence@) is None,
        },
{
    let collapsed = collapse_whitespace(evidence);
    if collapsed.as_str().is_empty() {
        return None;
    }
    let chars = char_vec(collapsed.as_str());
    let total_chars = chars.len();
    if total_chars <= PREVIEW_MAX_CHARS {
        return Some(collapsed);
    }
    let terms = query_terms(query);
    let tokens = preview_tokens(collapsed.as_str());
    proof {
        assert(string_views(terms@).to_set() =~= term_set(query@));
        lemma_preview_tokens_in_text(collapsed@);
    }
    let window = match best_preview_window(&tokens, &terms, total_chars) {
        Some(window) => window,
        None => return Some(preview_head(&chars, total_chars)),
    };
    if window.distinct == 0 {
        return Some(preview_head(&chars, total_chars));
    }
    proof {
        lemma_focus_in_text(
            token_views(tokens@),
            term_set(query@),
            window.start as int,
            window.end as int,
            tokens@.len(),
            total_chars as int,
        );
    }
    let (focus_start, focus_end) = match focus_span(&tokens, &terms, window.start, window.end) {
        Some(span) => span,
        None => return Some(preview_head(&chars, total_chars)),
    };
    Some(preview_centered(&chars, total_chars, focus_start, focus_end))
}

/// The evidence that selected a search candidate.
#[derive(Clone, Debug, PartialEq, Eq)]
pub enum CandidateEvidence {
    /// A matching content chunk.
    Chunk(String),
    /// The title matched.
    Title,
    /// The leading window of an expanded neighbour's content.
    LeadingWindow(String),
    /// No evidence in particular.
    Unmatched,
}

/// The text a candidate's preview is cut from: its evidence text, or the
/// leading window of its content when the title or nothing matched.
pub open spec fn preview_source(evidence: CandidateEvidence, content: Seq<char>) -> Seq<char> {
    match evidence {
        CandidateEvidence::Chunk(text) => text@,
        CandidateEvidence::LeadingWindow(text) => text@,
        _ => leading_window_chars(content),
    }
}

/// Builds a result preview for one candidate, from its evidence and its
/// content.
pub fn candidate_preview(query: &str, evidence: &CandidateEvidence, content: &str) -> (preview: Option<String>)
    ensures
        match preview {
            Some(p) => built_preview(query@, preview_source(*evidence, content@)) == Some(p@),
            None => built_preview(query@, preview_source(*evidence, content@)) is None,
        },
{
    match evidence {
        CandidateEvidence::Chunk(text) => build_preview(query, text.as_str()),
        CandidateEvidence::LeadingWindow(text) => build_preview(query, text.as_str()),
        CandidateEvidence::Title | CandidateEvidence::Unmatched => {
            let window = leading_window(content);
            build_preview(query, window.as_str())
        },
    }
}

/// The text a reranker scores for a candidate: its title, joined with its
/// evidence text when there is one.
pub open spec fn representative_chars(title: Seq<char>, evidence: CandidateEvidence) -> Seq<char> {
    match evidence {
        CandidateEvidence::Chunk(text) => titled_chars(title, text@),
        CandidateEvidence::LeadingWindow(text) => titled_chars(title, text@),
        _ => title,
    }
}

/// Builds the final reranker text for one candidate.
pub fn representative_text(title: &str, evidence: &CandidateEvidence) -> (text: String)
    ensures
        text@ == representative_chars(title@, *evidence),
{
    match evidence {
        CandidateEvidence::Chunk(text) => titled_text(title, text.as_str()),
        CandidateEvidence::LeadingWindow(text) => titled_text(title, text.as_str()),
        CandidateEvidence::Title | CandidateEvidence::Unmatched => title.to_owned(),
    }
}

/// The leading window is the head of the text: a prefix of it, as long as
/// the text up to `LEADING_WINDOW_CHARS` characters.
pub proof fn leading_window_is_the_head(cs: Seq<char>)
    ensures
        leading_window_chars(cs).is_prefix_of(cs),
        leading_window_chars(cs).len() == (if cs.len() <= LEADING_WINDOW_CHARS {
            cs.len()
        } else {
            LEADING_WINDOW_CHARS as nat
        }),
{
}

} // verus!
