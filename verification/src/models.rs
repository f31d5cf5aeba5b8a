//! The model catalogue: the address that lists the models, the search over
//! their names and ids, and the text of the listing.
use vstd::prelude::*;

use crate::text::{
    chars_of, contains, contains_seq, decimal, occurs_at, lowercase, pad_end, pad_start, push_decimal,
    push_padded_end, push_padded_start, push_spaces, push_str, spaces, to_lowercase,
};

verus! {

/// Base address of the OpenRouter HTTP API.
pub const API_BASE: &'static str = "https://openrouter.ai/api/v1";

/// Prices of a model, as the catalogue gives them: text holding a price per
/// token.
pub struct Pricing {
    pub prompt: String,
    pub completion: String,
}

/// One entry of the model catalogue.
pub struct Model {
    pub id: String,
    pub name: String,
    pub context_length: Option<u64>,
    pub pricing: Option<Pricing>,
}

/// The text of an optional string.
pub open spec fn opt_text(s: Option<&str>) -> Option<Seq<char>> {
    match s {
        Some(t) => Some(t@),
        None => None,
    }
}

/// The address that lists the models, narrowed to `category` when one is
/// given. The category is put in as it is.
pub open spec fn models_url(category: Option<Seq<char>>) -> Seq<char> {
    let all = API_BASE@ + "/models"@;
    match category {
        Some(c) => all + "?category="@ + c,
        None => all,
    }
}

/// The address that lists the models, in `category` when one is given.
pub fn build_models_url(category: Option<&str>) -> (r: String)
    ensures
        r@ == models_url(opt_text(category)),
{
    let mut url = String::new();
    push_str(&mut url, API_BASE);
    push_str(&mut url, "/models");
    if let Some(cat) = category {
        push_str(&mut url, "?category=");
        push_str(&mut url, cat);
    }
    assert(url@ =~= models_url(opt_text(category)));
    url
}

/// `m` matches the lowercased search text `term`: its lowercased name or
/// lowercased id contains `term`.
pub open spec fn model_matches(m: Model, term: Seq<char>) -> bool {
    contains_seq(lowercase(m.name@), term) || contains_seq(lowercase(m.id@), term)
}

/// The models that a search keeps, in their order: all of them without a
/// search text, else those whose name or id contains the text, compared in
/// lowercase.
pub open spec fn filtered_models(models: Seq<Model>, search: Option<Seq<char>>) -> Seq<Model> {
    match search {
        None => models,
        Some(t) => models.filter(|m: Model| model_matches(m, lowercase(t))),
    }
}

/// Whether a model whose lowercased name and id are `name_lower` and
/// `id_lower` is kept by the lowercased search text `term_lower`.
pub fn search_hit(name_lower: &str, id_lower: &str, term_lower: &str) -> (r: bool)
    ensures
        r == (contains_seq(name_lower@, term_lower@) || contains_seq(id_lower@, term_lower@)),
{
    let term = chars_of(term_lower);
    let name = chars_of(name_lower);
    if contains(name.as_slice(), term.as_slice()) {
        return true;
    }
    let id = chars_of(id_lower);
    contains(id.as_slice(), term.as_slice())
}

/// The models whose name or id contains `search`, ignoring case; all of
/// them when there is no search text. The order is kept.
pub fn filter_models(models: Vec<Model>, search: Option<&str>) -> (r: Vec<Model>)
    ensures
        r@ == filtered_models(models@, opt_text(search)),
        match search {
            Some(t) => t@.len() == 0 ==> r@ == models@,
            None => r@ == models@,
        },
        match search {
            Some(t) => {
                &&& forall|i: int|
                    #![trigger models@[i]]
                    0 <= i < models@.len() && (contains_seq(lowercase(models@[i].name@), lowercase(t@)) || contains_seq(lowercase(models@[i].id@), lowercase(t@)))
                        ==> r@.contains(models@[i])
                &&& forall|i: int|
                    #![trigger r@[i]]
                    0 <= i < r@.len() ==> models@.contains(r@[i]) && (contains_seq(lowercase(r@[i].name@), lowercase(t@)) || contains_seq(lowercase(r@[i].id@), lowercase(t@)))
            },
            None => true,
        },
{
    let term = match search {
        None => return models,
        Some(t) => t,
    };
    let lower = to_lowercase(term);
    let ghost all = models@;
    let ghost pred = |m: Model| model_matches(m, lowercase(term@));
    let mut kept: Vec<Model> = Vec::new();
    for m in it: models.into_iter()
        invariant
            it.seq() == all,
            lower@ == lowercase(term@),
            term@.len() == 0 ==> lower@.len() == 0,
            pred == (|m: Model| model_matches(m, lowercase(term@))),
            kept@ == all.take(it.index() as int).filter(pred),
            lower@.len() == 0 ==> kept@ == all.take(it.index() as int),
    {
        let ghost i = it.index();
        proof {
            reveal_with_fuel(Seq::<_>::filter, 1);
            assert(all.take(i + 1).drop_last() =~= all.take(i as int));
            assert(all.take(i + 1).last() == m);
        }
        let name = to_lowercase(m.name.as_str());
        let id = to_lowercase(m.id.as_str());
        proof {
            if lower@.len() == 0 {
                assert(name@.subrange(0, 0) =~= lower@);
                assert(occurs_at(name@, lower@, 0));
                assert(all.take(i + 1) =~= all.take(i as int).push(m));
            }
        }
        if search_hit(name.as_str(), id.as_str(), lower.as_str()) {
            kept.push(m);
        }
    }
    proof {
        assert(all.take(all.len() as int) =~= all);
        lemma_search_keeps_exactly_matches(all, term@);
    }
    kept
}

/// The heading of the listing of `count` models.
pub open spec fn found_heading(count: nat) -> Seq<char> {
    "Found "@ + decimal(count) + " models\n"@
}

/// The heading of the listing of `count` models.
pub fn models_found_line(count: u64) -> (r: String)
    ensures
        r@ == found_heading(count as nat),
{
    let mut r = String::new();
    push_str(&mut r, "Found ");
    push_decimal(&mut r, count);
    push_str(&mut r, " models\n");
    assert(r@ =~= found_heading(count as nat));
    r
}

/// The context column of a listing line: the context length in thousands
/// of tokens right-aligned in 7 columns and followed by `k ctx`, or 10 blank
/// columns when it is unknown, each after two spaces.
pub open spec fn context_column(ctx: Option<u64>) -> Seq<char> {
    match ctx {
        Some(n) => "  "@ + pad_start(decimal((n / 1000) as nat), 7) + "k ctx"@,
        None => "  "@ + spaces(10),
    }
}

/// The id and context columns of a listing line: the id left-aligned in 50
/// columns, then the context length in thousands of tokens right-aligned in 7
/// columns and followed by `k ctx`, or 10 blank columns when it is unknown.
pub open spec fn model_columns(m: Model) -> Seq<char> {
    pad_end(m.id@, 50) + match m.context_length {
        Some(ctx) => "  "@ + pad_start(decimal((ctx / 1000) as nat), 7) + "k ctx"@,
        None => "  "@ + spaces(10),
    }
}

/// The price columns of a listing line, from the two formatted prices.
pub open spec fn price_columns(prompt: Seq<char>, completion: Seq<char>) -> Seq<char> {
    "  "@ + pad_start(prompt, 8) + "/M in  "@ + pad_start(completion, 8) + "/M out"@
}

/// `out` is a result that `format_price` can give for some text equal to
/// `price`.
pub open spec fn formatted_from<F: Fn(&str) -> String>(
    format_price: F,
    price: Seq<char>,
    out: Seq<char>,
) -> bool {
    exists|s: &str, r: String| s@ == price && r@ == out && call_ensures(format_price, (s,), r)
}

/// The listing line of `model`: its id and context columns, then, when
/// `show_pricing` is set and the model has prices, its two prices as
/// `format_price` renders them.
pub fn model_line<F: Fn(&str) -> String>(model: &Model, show_pricing: bool, format_price: &F) -> (r:
    String)
    requires
        forall|s: &str| call_requires(*format_price, (s,)),
    ensures
        show_pricing && model.pricing is Some ==> exists|a: Seq<char>, b: Seq<char>|
            {
                &&& formatted_from(*format_price, model.pricing->0.prompt@, a)
                &&& formatted_from(*format_price, model.pricing->0.completion@, b)
                &&& r@ == model_columns(*model) + price_columns(a, b)
                &&& r@ == pad_end(model.id@, 50) + context_column(model.context_length) + "  "@
                    + pad_start(a, 8) + "/M in  "@ + pad_start(b, 8) + "/M out"@
            },
        !(show_pricing && model.pricing is Some) ==> r@ == model_columns(*model),
        !(show_pricing && model.pricing is Some) ==> r@ == pad_end(model.id@, 50) + context_column(
            model.context_length,
        ),
{
    let mut line = String::new();
    push_padded_end(&mut line, model.id.as_str(), 50);
    match model.context_length {
        Some(ctx) => {
            let thousands = ctx / 1000;
            let mut digits = String::new();
            push_decimal(&mut digits, thousands);
            push_str(&mut line, "  ");
            push_padded_start(&mut line, digits.as_str(), 7);
            push_str(&mut line, "k ctx");
        },
        None => {
            push_str(&mut line, "  ");
            push_spaces(&mut line, 10);
        },
    }
    let ghost columns = line@;
    assert(columns =~= model_columns(*model));
    if show_pricing {
        if let Some(pricing) = &model.pricing {
            let prompt = format_price(pricing.prompt.as_str());
            let completion = format_price(pricing.completion.as_str());
            push_str(&mut line, "  ");
            push_padded_start(&mut line, prompt.as_str(), 8);
            push_str(&mut line, "/M in  ");
            push_padded_start(&mut line, completion.as_str(), 8);
            push_str(&mut line, "/M out");
            assert(line@ =~= columns + price_columns(prompt@, completion@));
            assert(formatted_from(*format_price, pricing.prompt@, prompt@));
            assert(formatted_from(*format_price, pricing.completion@, completion@));
        }
    }
    line
}

// ── Laws ────────────────────────────────────────────────────────────────────

/// Searching ignores case: two search texts with the same lowercase form keep
/// the same models.
pub proof fn lemma_search_ignores_case(models: Seq<Model>, a: Seq<char>, b: Seq<char>)
    requires
        lowercase(a) == lowercase(b),
    ensures
        filtered_models(models, Some(a)) == filtered_models(models, Some(b)),
{
    let pa = |m: Model| model_matches(m, lowercase(a));
    let pb = |m: Model| model_matches(m, lowercase(b));
    assert(pa =~= pb);
}

/// A search keeps exactly the models that match it: each kept model is one
/// of the given models and matches, and each given model that matches is
/// kept. The search never adds models.
pub proof fn lemma_search_keeps_exactly_matches(models: Seq<Model>, t: Seq<char>)
    ensures
        filtered_models(models, Some(t)).len() <= models.len(),
        forall|i: int|
            #![trigger filtered_models(models, Some(t))[i]]
            0 <= i < filtered_models(models, Some(t)).len() ==> {
                &&& (contains_seq(lowercase(filtered_models(models, Some(t))[i].name@), lowercase(t)) || contains_seq(lowercase(filtered_models(models, Some(t))[i].id@), lowercase(t)))
                &&& models.contains(filtered_models(models, Some(t))[i])
            },
        forall|i: int|
            #![trigger models[i]]
            0 <= i < models.len() && (contains_seq(lowercase(models[i].name@), lowercase(t)) || contains_seq(lowercase(models[i].id@), lowercase(t)))
                ==> filtered_models(models, Some(t)).contains(models[i]),
{
    broadcast use vstd::seq_lib::group_filter_ensures;

    let pred = |m: Model| model_matches(m, lowercase(t));
    let kept = models.filter(pred);
    assert forall|i: int| #![trigger kept[i]] 0 <= i < kept.len() implies {
        &&& (contains_seq(lowercase(kept[i].name@), lowercase(t)) || contains_seq(lowercase(kept[i].id@), lowercase(t)))
        &&& models.contains(kept[i])
    } by {
        assert(pred(kept[i]));
        assert(kept.contains(kept[i]));
        models.lemma_filter_contains_rev(pred, kept[i]);
    }
    assert forall|i: int|
        #![trigger models[i]]
        0 <= i < models.len() && (contains_seq(lowercase(models[i].name@), lowercase(t)) || contains_seq(lowercase(models[i].id@), lowercase(t)))
        implies kept.contains(models[i]) by {
        assert(pred(models[i]));
    }
}

/// Searching is idempotent: searching the result of a search again with
/// the same text keeps all of it.
pub proof fn lemma_search_twice(models: Seq<Model>, t: Seq<char>)
    ensures
        filtered_models(filtered_models(models, Some(t)), Some(t)) == filtered_models(
            models,
            Some(t),
        ),
    decreases models.len(),
{
    let pred = |m: Model| model_matches(m, lowercase(t));
    reveal_with_fuel(Seq::<_>::filter, 1);
    if models.len() > 0 {
        lemma_search_twice(models.drop_last(), t);
        let sub = models.drop_last().filter(pred);
        if pred(models.last()) {
            assert(sub.push(models.last()).drop_last() =~= sub);
        }
    }
}

proof fn lemma_filter_both<A>(s: Seq<A>, p: spec_fn(A) -> bool, q: spec_fn(A) -> bool)
    ensures
        s.filter(p).filter(q) == s.filter(|x: A| p(x) && q(x)),
    decreases s.len(),
{
    reveal_with_fuel(Seq::<_>::filter, 1);
    let pq = |x: A| p(x) && q(x);
    if s.len() > 0 {
        lemma_filter_both(s.drop_last(), p, q);
        let sub = s.drop_last().filter(p);
        if p(s.last()) {
            assert(sub.push(s.last()).drop_last() =~= sub);
        }
    }
}

/// Two searches applied one after the other keep the same models in either
/// order.
pub proof fn lemma_searches_commute(models: Seq<Model>, a: Seq<char>, b: Seq<char>)
    ensures
        filtered_models(filtered_models(models, Some(a)), Some(b)) == filtered_models(
            filtered_models(models, Some(b)),
            Some(a),
        ),
{
    let pa = |m: Model| model_matches(m, lowercase(a));
    let pb = |m: Model| model_matches(m, lowercase(b));
    lemma_filter_both(models, pa, pb);
    lemma_filter_both(models, pb, pa);
    assert((|x: Model| pa(x) && pb(x)) =~= (|x: Model| pb(x) && pa(x)));
}

proof fn lemma_contains_transitive(s: Seq<char>, t: Seq<char>, u: Seq<char>)
    requires
        contains_seq(s, t),
        contains_seq(t, u),
    ensures
        contains_seq(s, u),
{
    let i = choose|i: int| occurs_at(s, t, i);
    let j = choose|j: int| occurs_at(t, u, j);
    assert(s.subrange(i + j, i + j + u.len()) =~= t.subrange(j, j + u.len()));
    assert(occurs_at(s, u, i + j));
}

/// A more specific search never adds a model: when the lowercase form of `b`
/// contains that of `a`, what `b` keeps is what `b` keeps of what `a` keeps,
/// a subsequence of it.
pub proof fn lemma_narrower_search(models: Seq<Model>, a: Seq<char>, b: Seq<char>)
    requires
        contains_seq(lowercase(b), lowercase(a)),
    ensures
        filtered_models(models, Some(b)) == filtered_models(
            filtered_models(models, Some(a)),
            Some(b),
        ),
{
    let pa = |m: Model| model_matches(m, lowercase(a));
    let pb = |m: Model| model_matches(m, lowercase(b));
    lemma_filter_both(models, pa, pb);
    assert forall|m: Model| #[trigger] pb(m) implies pa(m) by {
        if contains_seq(lowercase(m.name@), lowercase(b)) {
            lemma_contains_transitive(lowercase(m.name@), lowercase(b), lowercase(a));
        } else {
            lemma_contains_transitive(lowercase(m.id@), lowercase(b), lowercase(a));
        }
    }
    assert((|x: Model| pa(x) && pb(x)) =~= pb);
}

} // verus!
