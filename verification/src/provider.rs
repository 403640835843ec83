//! What the data provider reports beside the sounding: the weather symbol (from the model's
//! physics scheme) and the order in which the provider's table of values is listed.

use crate::ordering::{
    is_permutation, lemma_insert_keeps_permutation, lemma_insert_keeps_sorted, lemma_rest_after, sorted_by,
    total_on, transitive_on,
};
use vstd::prelude::*;

verus! {

/// What the provider's analysis table says about the weather: the symbol code it gives, if any,
/// and for each precipitation type whether the table gives it a value above one half.
#[derive(Clone, Copy, Debug, PartialEq, Eq, Structural)]
pub struct ProviderWeather {
    pub wx_symbol_code: Option<u8>,
    pub rain: bool,
    pub snow: bool,
    pub freezing_rain: bool,
    pub ice_pellets: bool,
}

/// Weather symbol code of rain.
pub const RAIN_CODE: u8 = 60;
/// Weather symbol code of snow.
pub const SNOW_CODE: u8 = 70;
/// Weather symbol code of freezing rain.
pub const FREEZING_RAIN_CODE: u8 = 66;
/// Weather symbol code of ice pellets.
pub const ICE_PELLETS_CODE: u8 = 79;

/// The provider's own symbol code wins; otherwise the first precipitation type present, in the
/// order rain, snow, freezing rain, ice pellets, gives its code; otherwise 0.
pub open spec fn wx_symbol_code_spec(w: ProviderWeather) -> u8 {
    match w.wx_symbol_code {
        Some(code) => code,
        None => if w.rain {
            RAIN_CODE
        } else if w.snow {
            SNOW_CODE
        } else if w.freezing_rain {
            FREEZING_RAIN_CODE
        } else if w.ice_pellets {
            ICE_PELLETS_CODE
        } else {
            0
        },
    }
}

/// The weather symbol code from the provider, i.e. the model physics scheme.
pub fn provider_wx_symbol_code(w: ProviderWeather) -> (code: u8)
    ensures
        code == wx_symbol_code_spec(w),
        w.wx_symbol_code is Some ==> code == w.wx_symbol_code->0,
        w.wx_symbol_code is None && w.rain ==> code == 60,
        w.wx_symbol_code is None && !w.rain && w.snow ==> code == 70,
        w.wx_symbol_code is None && !w.rain && !w.snow && w.freezing_rain ==> code == 66,
        w.wx_symbol_code is None && !w.rain && !w.snow && !w.freezing_rain && w.ice_pellets ==> code == 79,
        w.wx_symbol_code is None && !w.rain && !w.snow && !w.freezing_rain && !w.ice_pellets ==> code == 0,
{
    if let Some(code) = w.wx_symbol_code {
        return code;
    }
    if w.rain {
        return RAIN_CODE;
    }
    if w.snow {
        return SNOW_CODE;
    }
    if w.freezing_rain {
        return FREEZING_RAIN_CODE;
    }
    if w.ice_pellets {
        return ICE_PELLETS_CODE;
    }
    0
}

/// The provider's own symbol code wins. Without one, the code is that of the first precipitation
/// type present in the order rain (60), snow (70), freezing rain (66), ice pellets (79): each type
/// present is reported unless one earlier in that order is present too; with none, 0.
pub proof fn lemma_symbol_code_of_first_precipitation(w: ProviderWeather)
    ensures
        w.wx_symbol_code is Some ==> wx_symbol_code_spec(w) == w.wx_symbol_code->0,
        w.wx_symbol_code is None && w.rain ==> wx_symbol_code_spec(w) == 60,
        w.wx_symbol_code is None && !w.rain && w.snow ==> wx_symbol_code_spec(w) == 70,
        w.wx_symbol_code is None && !w.rain && !w.snow && w.freezing_rain ==> wx_symbol_code_spec(w) == 66,
        w.wx_symbol_code is None && !w.rain && !w.snow && !w.freezing_rain && w.ice_pellets
            ==> wx_symbol_code_spec(w) == 79,
        w.wx_symbol_code is None && !w.rain && !w.snow && !w.freezing_rain && !w.ice_pellets
            ==> wx_symbol_code_spec(w) == 0,
{
}

/// Lexicographic order of texts, character by character by code point (the order of `str`):
/// `a` comes no later than `b`.
pub open spec fn text_le(a: Seq<char>, b: Seq<char>) -> bool
    decreases a.len(),
{
    if a.len() == 0 {
        true
    } else if b.len() == 0 {
        false
    } else if a[0] == b[0] {
        text_le(a.drop_first(), b.drop_first())
    } else {
        (a[0] as int) < (b[0] as int)
    }
}

proof fn lemma_text_le_total(a: Seq<char>, b: Seq<char>)
    ensures
        text_le(a, b) || text_le(b, a),
        text_le(a, b) && text_le(b, a) ==> a == b,
    decreases a.len(),
{
    if a.len() > 0 && b.len() > 0 && a[0] == b[0] {
        lemma_text_le_total(a.drop_first(), b.drop_first());
        if text_le(a, b) && text_le(b, a) {
            assert(a == seq![a[0]] + a.drop_first());
            assert(b == seq![b[0]] + b.drop_first());
        }
    }
}

proof fn lemma_text_le_trans(a: Seq<char>, b: Seq<char>, c: Seq<char>)
    requires
        text_le(a, b),
        text_le(b, c),
    ensures
        text_le(a, c),
    decreases a.len(),
{
    if a.len() > 0 && b.len() > 0 && c.len() > 0 && a[0] == b[0] && b[0] == c[0] {
        lemma_text_le_trans(a.drop_first(), b.drop_first(), c.drop_first());
    }
}

/// The order of texts is that of `str`: a text comes before every text it begins, and otherwise
/// two texts are ordered by the code points of the first characters where they differ.
pub proof fn lemma_text_order_is_lexicographic(a: Seq<char>, b: Seq<char>, i: int)
    ensures
        a.len() <= b.len() && b.subrange(0, a.len() as int) == a ==> text_le(a, b),
        0 <= i < a.len() && i < b.len() && a.subrange(0, i) == b.subrange(0, i) && a[i] != b[i] ==> (text_le(a, b)
            <==> (a[i] as int) < (b[i] as int)),
        0 <= i <= a.len() && i < b.len() && a.len() == i && a == b.subrange(0, i) ==> text_le(a, b),
        b.len() < a.len() && a.subrange(0, b.len() as int) == b ==> !text_le(a, b),
    decreases a.len(),
{
    if a.len() > 0 && b.len() > 0 {
        let a1 = a.drop_first();
        let b1 = b.drop_first();
        lemma_text_order_is_lexicographic(a1, b1, i - 1);
        if a.len() <= b.len() && b.subrange(0, a.len() as int) == a {
            assert(b[0] == b.subrange(0, a.len() as int)[0]);
            assert(b1.subrange(0, a1.len() as int) =~= b.subrange(0, a.len() as int).drop_first());
        }
        if 0 <= i < a.len() && i < b.len() && a.subrange(0, i) == b.subrange(0, i) && a[i] != b[i] {
            if i > 0 {
                assert(a[0] == a.subrange(0, i)[0]);
                assert(b[0] == b.subrange(0, i)[0]);
                assert(a1.subrange(0, i - 1) =~= a.subrange(0, i).drop_first());
                assert(b1.subrange(0, i - 1) =~= b.subrange(0, i).drop_first());
                assert(a1[i - 1] == a[i]);
                assert(b1[i - 1] == b[i]);
            }
        }
        if b.len() < a.len() && a.subrange(0, b.len() as int) == b {
            assert(a[0] == a.subrange(0, b.len() as int)[0]);
            assert(a1.subrange(0, b1.len() as int) =~= a.subrange(0, b.len() as int).drop_first());
        }
    }
}

/// Does `a` come no later than `b` in the order of `str`?
pub fn str_le(a: &str, b: &str) -> (r: bool)
    ensures
        r == text_le(a@, b@),
{
    let n = a.unicode_len();
    let m = b.unicode_len();
    let mut i: usize = 0;
    proof {
        assert(a@.skip(0) =~= a@);
        assert(b@.skip(0) =~= b@);
    }
    while i < n && i < m
        invariant
            n == a@.len(),
            m == b@.len(),
            i <= n,
            i <= m,
            text_le(a@, b@) == text_le(a@.skip(i as int), b@.skip(i as int)),
        decreases n - i,
    {
        let c = a.get_char(i);
        let d = b.get_char(i);
        proof {
            assert(a@.skip(i as int)[0] == c);
            assert(b@.skip(i as int)[0] == d);
        }
        if c != d {
            return (c as u32) < (d as u32);
        }
        proof {
            assert(a@.skip(i as int).drop_first() =~= a@.skip(i as int + 1));
            assert(b@.skip(i as int).drop_first() =~= b@.skip(i as int + 1));
        }
        i += 1;
    }
    i == n
}

/// `text_le` as a value.
pub open spec fn name_order() -> spec_fn(Seq<char>, Seq<char>) -> bool {
    |a: Seq<char>, b: Seq<char>| text_le(a, b)
}

/// `order` lists each position of `names` once, by name in the order of `str`; entries with the
/// same name keep their order.
pub open spec fn sorted_by_name(names: Seq<Seq<char>>, order: Seq<usize>) -> bool {
    &&& is_permutation(order, names.len())
    &&& forall|i: int, j: int| 0 <= i < j < order.len() ==> text_le(names[order[i] as int], names[order[j] as int])
    &&& forall|i: int, j: int|
        0 <= i < j < order.len() && names[order[i] as int] == names[order[j] as int] ==> order[i] < order[j]
}

/// The order of texts is total and transitive on any names.
proof fn lemma_name_order(names: Seq<Seq<char>>)
    ensures
        total_on(names, name_order()),
        transitive_on(names, name_order()),
{
    assert forall|i: int, j: int| 0 <= i < names.len() && 0 <= j < names.len() implies #[trigger] name_order()(names[i], names[j])
        || name_order()(names[j], names[i]) by {
        lemma_text_le_total(names[i], names[j]);
    }
    assert forall|i: int, j: int, l: int|
        #![trigger name_order()(names[i], names[j]), name_order()(names[j], names[l])]
        0 <= i < names.len() && 0 <= j < names.len() && 0 <= l < names.len() && name_order()(names[i], names[j])
            && name_order()(names[j], names[l]) implies name_order()(names[i], names[l]) by {
        lemma_text_le_trans(names[i], names[j], names[l]);
    }
}

/// The order in which the provider's table of values is listed: by name.
pub fn provider_data_order(names: &Vec<String>) -> (order: Vec<usize>)
    ensures
        sorted_by_name(names@.map_values(|s: String| s@), order@),
{
    let ghost keys = names@.map_values(|s: String| s@);
    let ghost le = name_order();
    proof {
        lemma_name_order(keys);
    }
    let n = names.len();
    let mut order: Vec<usize> = Vec::new();
    let mut k: usize = 0;
    while k < n
        invariant
            n == names.len(),
            keys == names@.map_values(|s: String| s@),
            keys.len() == n,
            k <= n,
            le == name_order(),
            total_on(keys, le),
            transitive_on(keys, le),
            is_permutation(order@, k as nat),
            sorted_by(keys, le, order@),
        decreases n - k,
    {
        let key = names[k].as_str();
        assert(key@ == keys[k as int]);
        // First position whose name comes after `key`.
        let mut p: usize = 0;
        while p < order.len() && str_le(names[order[p]].as_str(), key)
            invariant
                n == names.len(),
                keys == names@.map_values(|s: String| s@),
                k < n,
                p <= order.len(),
                key@ == keys[k as int],
                le == name_order(),
                forall|i: int| 0 <= i < order.len() ==> #[trigger] order@[i] < k,
                forall|i: int| 0 <= i < p ==> le(#[trigger] keys[order@[i] as int], keys[k as int]),
            decreases order.len() - p,
        {
            assert(names@[order@[p as int] as int]@ == keys[order@[p as int] as int]);
            p += 1;
        }
        let ghost old_order = order@;
        proof {
            if p < old_order.len() {
                assert(names@[old_order[p as int] as int]@ == keys[old_order[p as int] as int]);
            }
            lemma_rest_after(keys, le, old_order, p as int, k as int);
        }
        order.insert(p, k);
        proof {
            assert(order@ == old_order.subrange(0, p as int).push(k).add(old_order.subrange(p as int, old_order.len() as int)));
            lemma_insert_keeps_permutation(old_order, order@, p as int, k);
            lemma_insert_keeps_sorted(keys, le, old_order, order@, p as int, k);
        }
        k += 1;
    }
    proof {
        assert forall|i: int, j: int|
            0 <= i < j < order.len() && keys[order@[i] as int] == keys[order@[j] as int] implies order@[i] < order@[j] by {
            lemma_text_le_total(keys[order@[j] as int], keys[order@[i] as int]);
        }
    }
    order
}

} // verus!
