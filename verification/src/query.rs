//! The query builder: from a saved search to the text and the parameters of
//! a search request.

use vstd::prelude::*;
use vstd::string::*;
use crate::error::PipelineError;
use crate::filters::{effective_min_duration, wants_captions};
use crate::prefs::{GlobalPrefs, GlobalPrefsView, MySearch, MySearchView, QuerySpec, QuerySpecView};
use crate::text::{
    char_is_whitespace, chars_of, decimal, decimal_chars, is_blank, is_whitespace, chars_views,
    copy_chars, join, join_chars, opt_str, push_all, string_of, strs, trim, trim_chars,
};

verus! {

// ---------------------------------------------------------------------------
// Tokens
// ---------------------------------------------------------------------------

/// A term has to be quoted when it holds whitespace or a double quote.
pub open spec fn needs_quotes(term: Seq<char>) -> bool {
    exists|i: int| 0 <= i < term.len() && (is_whitespace(#[trigger] term[i]) || term[i] == '"')
}

/// `term` with a backslash put before every double quote.
pub open spec fn escape_quotes(term: Seq<char>) -> Seq<char>
    decreases term.len(),
{
    if term.len() == 0 {
        Seq::empty()
    } else if term.last() == '"' {
        escape_quotes(term.drop_last()) + seq!['\\', '"']
    } else {
        escape_quotes(term.drop_last()).push(term.last())
    }
}

/// How a term stands in the query text: in double quotes, with inner quotes
/// escaped, if and only if it holds whitespace or a quote; else as it is.
pub open spec fn query_token(term: Seq<char>) -> Seq<char> {
    if needs_quotes(term) {
        seq!['"'] + escape_quotes(term) + seq!['"']
    } else {
        term
    }
}

/// Formats one term of a query.
pub fn format_query_chars(term: &Vec<char>) -> (r: Vec<char>)
    ensures
        r@ == query_token(term@),
{
    let mut quoted = false;
    let mut escaped: Vec<char> = Vec::new();
    let mut plain: Vec<char> = Vec::new();
    let mut i: usize = 0;
    assert(term@.take(0) =~= Seq::<char>::empty());
    while i < term.len()
        invariant
            i <= term.len(),
            quoted == needs_quotes(term@.take(i as int)),
            escaped@ == escape_quotes(term@.take(i as int)),
            plain@ == term@.take(i as int),
        decreases term.len() - i,
    {
        let c = term[i];
        proof {
            let next = term@.take(i + 1);
            let prev = term@.take(i as int);
            assert(next.drop_last() =~= prev);
            assert(next.last() == c);
            assert(next =~= prev.push(c));
            if needs_quotes(prev) {
                let k = choose|k: int|
                    0 <= k < prev.len() && (is_whitespace(#[trigger] prev[k]) || prev[k] == '"');
                assert(next[k] == prev[k]);
            }
            if needs_quotes(next) {
                let k = choose|k: int|
                    0 <= k < next.len() && (is_whitespace(#[trigger] next[k]) || next[k] == '"');
                if k < prev.len() {
                    assert(prev[k] == next[k]);
                }
            }
            if is_whitespace(c) || c == '"' {
                assert(next[i as int] == c);
            }
        }
        if char_is_whitespace(c) || c == '"' {
            quoted = true;
        }
        if c == '"' {
            escaped.push('\\');
            escaped.push('"');
            assert(escaped@ =~= escape_quotes(term@.take(i as int)) + seq!['\\', '"']);
        } else {
            escaped.push(c);
        }
        plain.push(c);
        i += 1;
    }
    assert(term@.take(i as int) =~= term@);
    if quoted {
        let mut r: Vec<char> = Vec::new();
        r.push('"');
        push_all(&mut r, &escaped);
        r.push('"');
        assert(r@ =~= seq!['"'] + escape_quotes(term@) + seq!['"']);
        r
    } else {
        plain
    }
}

/// Formats one term of a query: quoted if and only if it needs to be.
pub fn format_query_token(term: &str) -> (r: String)
    ensures
        r@ == query_token(term@),
{
    let v = chars_of(term);
    let t = format_query_chars(&v);
    string_of(&t)
}

// ---------------------------------------------------------------------------
// The query text
// ---------------------------------------------------------------------------

/// The tokens of the terms that are not blank, each trimmed and formatted,
/// in the order of the terms.
pub open spec fn kept_tokens(terms: Seq<Seq<char>>) -> Seq<Seq<char>>
    decreases terms.len(),
{
    if terms.len() == 0 {
        Seq::empty()
    } else if is_blank(terms.last()) {
        kept_tokens(terms.drop_last())
    } else {
        kept_tokens(terms.drop_last()).push(query_token(trim(terms.last())))
    }
}

/// Each token with a minus sign before it.
pub open spec fn negated(tokens: Seq<Seq<char>>) -> Seq<Seq<char>> {
    Seq::new(tokens.len(), |i: int| seq!['-'] + tokens[i])
}

/// The free text as a part of the query: trimmed, and absent when blank.
pub open spec fn free_text_part(q: Option<Seq<char>>) -> Seq<Seq<char>> {
    match q {
        Some(s) => if is_blank(s) {
            Seq::empty()
        } else {
            seq![trim(s)]
        },
        None => Seq::empty(),
    }
}

/// The alternatives as one part of the query: `(a OR b ...)`, absent when
/// there is no alternative.
pub open spec fn any_part(any_terms: Seq<Seq<char>>) -> Seq<Seq<char>> {
    let tokens = kept_tokens(any_terms);
    if tokens.len() == 0 {
        Seq::empty()
    } else {
        seq![seq!['('] + join(tokens, seq![' ', 'O', 'R', ' ']) + seq![')']]
    }
}

/// The parts of the query text in their fixed order: free text, the
/// alternatives, each required term, each excluded term with its minus sign.
pub open spec fn query_parts(q: QuerySpecView) -> Seq<Seq<char>> {
    free_text_part(q.q) + any_part(q.any_terms) + kept_tokens(q.all_terms) + negated(
        kept_tokens(q.not_terms),
    )
}

/// The query text: the parts, separated by one space.
pub open spec fn query_text(q: QuerySpecView) -> Seq<char> {
    join(query_parts(q), seq![' '])
}

/// Whether the query names anything to look for: free text, an alternative
/// or a required term. Excluded terms alone do not make a query.
pub open spec fn has_positive_terms(q: QuerySpecView) -> bool {
    free_text_part(q.q).len() > 0 || kept_tokens(q.any_terms).len() > 0 || kept_tokens(
        q.all_terms,
    ).len() > 0
}

/// The formatted tokens of a list of terms.
pub fn collect_tokens(terms: &Vec<String>) -> (r: Vec<Vec<char>>)
    ensures
        chars_views(r@) == kept_tokens(strs(terms@)),
{
    let ghost all = strs(terms@);
    let mut r: Vec<Vec<char>> = Vec::new();
    let mut i: usize = 0;
    assert(all.take(0) =~= Seq::<Seq<char>>::empty());
    assert(chars_views(r@) =~= Seq::<Seq<char>>::empty());
    while i < terms.len()
        invariant
            i <= terms.len(),
            all == strs(terms@),
            chars_views(r@) == kept_tokens(all.take(i as int)),
        decreases terms.len() - i,
    {
        proof {
            let next = all.take(i + 1);
            assert(next.drop_last() =~= all.take(i as int));
            assert(next.last() == terms@[i as int]@);
        }
        let raw = chars_of(terms[i].as_str());
        let t = trim_chars(&raw);
        if t.len() > 0 {
            let ghost before = r@;
            let token = format_query_chars(&t);
            r.push(token);
            assert(chars_views(r@) =~= chars_views(before).push(query_token(t@)));
        }
        i += 1;
    }
    assert(all.take(i as int) =~= all);
    r
}

/// Appends a copy of each of `tokens`, with `prefix` before it, to `parts`.
fn extend_parts(parts: &mut Vec<Vec<char>>, tokens: &Vec<Vec<char>>, prefix: &Vec<char>)
    ensures
        chars_views(final(parts)@) == chars_views(old(parts)@) + Seq::new(
            tokens@.len(),
            |k: int| prefix@ + tokens@[k]@,
        ),
{
    let ghost start = chars_views(parts@);
    let mut i: usize = 0;
    assert(chars_views(parts@) =~= start + Seq::new(0, |k: int| prefix@ + tokens@[k]@));
    while i < tokens.len()
        invariant
            i <= tokens.len(),
            chars_views(parts@) == start + Seq::new(i as nat, |k: int| prefix@ + tokens@[k]@),
        decreases tokens.len() - i,
    {
        let ghost before = parts@;
        let mut piece = copy_chars(prefix);
        push_all(&mut piece, &tokens[i]);
        parts.push(piece);
        assert(chars_views(parts@) =~= chars_views(before).push(prefix@ + tokens@[i as int]@));
        assert(chars_views(before).push(prefix@ + tokens@[i as int]@) =~= start + Seq::new(
            (i + 1) as nat,
            |k: int| prefix@ + tokens@[k]@,
        ));
        i += 1;
    }
}

/// The parts of the query text of `spec`.
pub fn build_query_parts(spec: &QuerySpec) -> (r: Vec<Vec<char>>)
    ensures
        chars_views(r@) == query_parts(spec@),
        (r@.len() > 0) == (query_parts(spec@).len() > 0),
{
    let mut parts: Vec<Vec<char>> = Vec::new();
    assert(chars_views(parts@) =~= Seq::<Seq<char>>::empty());
    if let Some(q) = &spec.q {
        let raw = chars_of(q.as_str());
        let t = trim_chars(&raw);
        if t.len() > 0 {
            parts.push(t);
        }
    }
    assert(chars_views(parts@) =~= free_text_part(spec@.q));
    let any = collect_tokens(&spec.any_terms);
    assert(chars_views(any@).len() == any@.len());
    if any.len() > 0 {
        let ghost before = parts@;
        let sep = chars_of(" OR ");
        proof {
            reveal_strlit(" OR ");
            assert(sep@ =~= seq![' ', 'O', 'R', ' ']);
        }
        let joined = join_chars(&any, &sep);
        let mut p: Vec<char> = Vec::new();
        p.push('(');
        push_all(&mut p, &joined);
        p.push(')');
        assert(p@ =~= seq!['('] + join(kept_tokens(spec@.any_terms), seq![' ', 'O', 'R', ' '])
            + seq![')']);
        parts.push(p);
        assert(chars_views(parts@) =~= chars_views(before).push(p@));
    }
    assert(chars_views(parts@) =~= free_text_part(spec@.q) + any_part(spec@.any_terms));
    let all = collect_tokens(&spec.all_terms);
    let none: Vec<char> = Vec::new();
    extend_parts(&mut parts, &all, &none);
    assert(chars_views(parts@) =~= free_text_part(spec@.q) + any_part(spec@.any_terms)
        + kept_tokens(spec@.all_terms)) by {
        assert(Seq::new(all@.len(), |k: int| none@ + all@[k]@) =~= chars_views(all@)) by {
            assert forall|k: int| 0 <= k < all@.len() implies none@ + #[trigger] all@[k]@
                == all@[k]@ by {
                assert(none@ + all@[k]@ =~= all@[k]@);
            }
        }
    }
    let not = collect_tokens(&spec.not_terms);
    let mut minus: Vec<char> = Vec::new();
    minus.push('-');
    extend_parts(&mut parts, &not, &minus);
    assert(chars_views(parts@) =~= query_parts(spec@)) by {
        assert(minus@ =~= seq!['-']);
        assert(Seq::new(not@.len(), |k: int| minus@ + not@[k]@) =~= negated(
            kept_tokens(spec@.not_terms),
        )) by {
            assert forall|k: int| 0 <= k < not@.len() implies minus@ + #[trigger] not@[k]@
                == seq!['-'] + kept_tokens(spec@.not_terms)[k] by {
                assert(chars_views(not@)[k] == not@[k]@);
            }
        }
    }
    assert(chars_views(parts@).len() == parts@.len());
    parts
}

/// The query text of `spec`: its parts separated by one space.
pub fn build_query_text(spec: &QuerySpec) -> (r: String)
    ensures
        r@ == query_text(spec@),
{
    let parts = build_query_parts(spec);
    let mut sep: Vec<char> = Vec::new();
    sep.push(' ');
    assert(sep@ =~= seq![' ']);
    let text = join_chars(&parts, &sep);
    string_of(&text)
}

// ---------------------------------------------------------------------------
// The parameters
// ---------------------------------------------------------------------------

/// One parameter of a request, by key and value.
pub struct ParamView {
    pub key: Seq<char>,
    pub value: Seq<char>,
}

/// The views of a list of parameters.
pub open spec fn param_views(v: Seq<(&'static str, String)>) -> Seq<ParamView> {
    Seq::new(v.len(), |i: int| ParamView { key: v[i].0@, value: v[i].1@ })
}

/// The coarse duration class that a minimum duration lets one ask for:
/// `long` from twenty minutes on, `medium` from ten, else none.
pub open spec fn duration_hint(min_secs: u32) -> Option<Seq<char>> {
    if min_secs >= 1200 {
        Some("long"@)
    } else if min_secs >= 600 {
        Some("medium"@)
    } else {
        None
    }
}

/// A parameter list of none or one entry.
pub open spec fn optional_param(key: Seq<char>, value: Option<Seq<char>>) -> Seq<ParamView> {
    match value {
        Some(v) => seq![ParamView { key, value: v }],
        None => Seq::empty(),
    }
}

/// The parameters that a search contributes to its requests, in their fixed
/// order: the query text, then as far as each applies the category, the
/// region, the caption requirement and the duration hint.
pub open spec fn query_params(global: GlobalPrefsView, search: MySearchView) -> Seq<ParamView> {
    seq![ParamView { key: "q"@, value: query_text(search.query) }] + optional_param(
        "videoCategoryId"@,
        match search.query.category_id {
            Some(c) => Some(decimal(c as nat)),
            None => None,
        },
    ) + optional_param("regionCode"@, global.region_code) + optional_param(
        "videoCaption"@,
        if wants_captions(global, search) {
            Some("closedCaption"@)
        } else {
            None
        },
    ) + optional_param("videoDuration"@, duration_hint(effective_min_duration(global, search)))
}

/// Whether a search can be submitted: it names something to look for and
/// its query text is not blank. The first implies the second.
pub open spec fn query_usable(q: QuerySpecView) -> bool {
    has_positive_terms(q) && !is_blank(query_text(q))
}

/// The parameters of the search request for `search` under the global
/// defaults. A search is refused if and only if it names nothing to look
/// for: no free text, no alternative and no required term. Its query text
/// is then empty but for excluded terms.
pub fn build_query_params(global: &GlobalPrefs, search: &MySearch) -> (r: Result<
    Vec<(&'static str, String)>,
    PipelineError,
>)
    ensures
        r is Ok <==> has_positive_terms(search@.query),
        r is Ok <==> query_usable(search@.query),
        r matches Ok(params) ==> param_views(params@) == query_params(global@, search@),
        r matches Err(e) ==> e == PipelineError::EmptyQuery,
{
    proof {
        if has_positive_terms(search@.query) {
            lemma_positive_terms_give_text(search@.query);
        }
    }
    let free = match &search.query.q {
        Some(q) => !crate::text::str_blank(q.as_str()),
        None => false,
    };
    let any = collect_tokens(&search.query.any_terms);
    let all = collect_tokens(&search.query.all_terms);
    assert(chars_views(any@).len() == any@.len());
    assert(chars_views(all@).len() == all@.len());
    let positive = free || any.len() > 0 || all.len() > 0;
    if !positive {
        return Err(PipelineError::EmptyQuery);
    }
    let query_text = build_query_text(&search.query);
    let mut params: Vec<(&'static str, String)> = Vec::new();
    params.push(("q", query_text));
    assert(param_views(params@) =~= seq![
        ParamView { key: "q"@, value: crate::query::query_text(search@.query) },
    ]);
    if let Some(category_id) = search.query.category_id {
        let ghost before = params@;
        let digits = decimal_chars(category_id as u128);
        params.push(("videoCategoryId", string_of(&digits)));
        assert(param_views(params@) =~= param_views(before).push(
            ParamView { key: "videoCategoryId"@, value: decimal(category_id as nat) },
        ));
    }
    let ghost after_category = param_views(params@);
    assert(after_category =~= seq![
        ParamView { key: "q"@, value: crate::query::query_text(search@.query) },
    ] + optional_param(
        "videoCategoryId"@,
        match search@.query.category_id {
            Some(c) => Some(decimal(c as nat)),
            None => None,
        },
    ));
    if let Some(region) = &search_region(global) {
        let ghost before = params@;
        params.push(("regionCode", region.clone()));
        assert(param_views(params@) =~= param_views(before).push(
            ParamView { key: "regionCode"@, value: region@ },
        ));
    }
    let ghost after_region = param_views(params@);
    assert(after_region =~= after_category + optional_param("regionCode"@, global@.region_code));
    let require_captions = match search.require_captions_override {
        Some(b) => b,
        None => global.require_captions,
    };
    if require_captions {
        let ghost before = params@;
        params.push(("videoCaption", "closedCaption".to_owned()));
        assert(param_views(params@) =~= param_views(before).push(
            ParamView { key: "videoCaption"@, value: "closedCaption"@ },
        ));
    }
    let ghost after_captions = param_views(params@);
    assert(after_captions =~= after_region + optional_param(
        "videoCaption"@,
        if wants_captions(global@, search@) {
            Some("closedCaption"@)
        } else {
            None
        },
    ));
    let min_duration: u32 = match search.min_duration_override {
        Some(m) => m,
        None => global.min_duration_secs,
    };
    if min_duration >= 1200 {
        let ghost before = params@;
        params.push(("videoDuration", "long".to_owned()));
        assert(param_views(params@) =~= param_views(before).push(
            ParamView { key: "videoDuration"@, value: "long"@ },
        ));
    } else if min_duration >= 600 {
        let ghost before = params@;
        params.push(("videoDuration", "medium".to_owned()));
        assert(param_views(params@) =~= param_views(before).push(
            ParamView { key: "videoDuration"@, value: "medium"@ },
        ));
    }
    assert(param_views(params@) =~= after_captions + optional_param(
        "videoDuration"@,
        duration_hint(effective_min_duration(global@, search@)),
    ));
    Ok(params)
}

/// The region that requests are restricted to, if any.
fn search_region(global: &GlobalPrefs) -> (r: Option<String>)
    ensures
        opt_str(r) == global@.region_code,
{
    crate::prefs::clone_opt_string(&global.region_code)
}

/// A list of terms that are all blank gives no token.
pub proof fn lemma_blank_terms_give_no_token(terms: Seq<Seq<char>>)
    requires
        forall|i: int| 0 <= i < terms.len() ==> is_blank(#[trigger] terms[i]),
    ensures
        kept_tokens(terms).len() == 0,
    decreases terms.len(),
{
    if terms.len() > 0 {
        let pre = terms.drop_last();
        assert forall|i: int| 0 <= i < pre.len() implies is_blank(#[trigger] pre[i]) by {
            assert(pre[i] == terms[i]);
        }
        lemma_blank_terms_give_no_token(pre);
        assert(is_blank(terms[terms.len() - 1]));
    }
}

/// A search without free text, alternatives and required terms cannot be
/// submitted, whatever it excludes.
pub proof fn lemma_nothing_to_look_for(q: QuerySpecView)
    requires
        q.q matches Some(text) ==> is_blank(text),
        forall|i: int| 0 <= i < q.any_terms.len() ==> is_blank(#[trigger] q.any_terms[i]),
        forall|i: int| 0 <= i < q.all_terms.len() ==> is_blank(#[trigger] q.all_terms[i]),
    ensures
        !has_positive_terms(q),
        !query_usable(q),
{
    lemma_blank_terms_give_no_token(q.any_terms);
    lemma_blank_terms_give_no_token(q.all_terms);
}

/// A token of a term that is not blank starts with a character that is not
/// whitespace.
proof fn lemma_token_start(term: Seq<char>)
    requires
        !is_blank(term),
    ensures
        query_token(trim(term)).len() > 0,
        !is_whitespace(query_token(trim(term))[0]),
{
    crate::text::lemma_trim_edges(term);
}

proof fn lemma_kept_tokens_start(terms: Seq<Seq<char>>)
    ensures
        forall|i: int|
            0 <= i < kept_tokens(terms).len() ==> (#[trigger] kept_tokens(terms)[i]).len() > 0
                && !is_whitespace(kept_tokens(terms)[i][0]),
    decreases terms.len(),
{
    if terms.len() > 0 {
        let pre = kept_tokens(terms.drop_last());
        lemma_kept_tokens_start(terms.drop_last());
        if !is_blank(terms.last()) {
            lemma_token_start(terms.last());
        }
        assert forall|i: int| 0 <= i < kept_tokens(terms).len() implies (#[trigger] kept_tokens(
            terms,
        )[i]).len() > 0 && !is_whitespace(kept_tokens(terms)[i][0]) by {
            if i < pre.len() {
                assert(kept_tokens(terms)[i] == pre[i]);
            }
        }
    }
}

/// A query that names something to look for has a text that is not blank:
/// such a search can always be submitted.
pub proof fn lemma_positive_terms_give_text(q: QuerySpecView)
    requires
        has_positive_terms(q),
    ensures
        !is_blank(query_text(q)),
        query_usable(q),
{
    let parts = query_parts(q);
    let free = free_text_part(q.q);
    let any = any_part(q.any_terms);
    let all = kept_tokens(q.all_terms);
    lemma_kept_tokens_start(q.all_terms);
    assert(parts.len() > 0);
    assert(parts[0].len() > 0 && !is_whitespace(parts[0][0])) by {
        if free.len() > 0 {
            assert(parts[0] == free[0]);
            crate::text::lemma_trim_edges(q.q->0);
        } else if any.len() > 0 {
            assert(parts[0] == any[0]);
            assert(any[0][0] == '(');
        } else {
            assert(parts[0] == all[0]);
        }
    }
    crate::text::lemma_join_first(parts, seq![' ']);
    crate::text::lemma_not_blank(query_text(q));
}

} // verus!
