//! Style resolution: matching selectors against elements, cascading matched
//! declarations in ascending specificity order (stable, so document order
//! breaks ties), and building the styled tree that mirrors the document tree.

use vstd::prelude::*;
use crate::css::{
    Stylesheet, StylesheetV, Rule, RuleV, Selector, SelectorV, SimpleSelector, SimpleSelectorV,
    Value, ValueV, Declaration, DeclarationV, Specificity, spec_specificity, spec_lt3,
    specificity_lt, views_of_rules,
};
use crate::dom::{
    Node, NodeV, NodeType, NodeTypeV, ElementData, ElementDataV, spec_attr_lookup, spec_classes,
    views_of_strings,
};
use crate::layout;
use crate::layout::Display;
use crate::text::str_eq;

verus! {

broadcast use vstd::std_specs::vec::group_vec_axioms;

// ---- The per-element property map ----

/// The value bound to `k` in a property list: the first entry with that key.
pub open spec fn spec_prop_lookup(m: Seq<(Seq<char>, ValueV)>, k: Seq<char>) -> Option<ValueV>
    decreases m.len(),
{
    if m.len() == 0 {
        None
    } else if m[0].0 == k {
        Some(m[0].1)
    } else {
        spec_prop_lookup(m.drop_first(), k)
    }
}

/// Binding `k` to `v`: an existing entry for `k` is replaced in place (last
/// applied wins), a new key is appended.
pub open spec fn spec_prop_insert(m: Seq<(Seq<char>, ValueV)>, k: Seq<char>, v: ValueV) -> Seq<
    (Seq<char>, ValueV),
>
    decreases m.len(),
{
    if m.len() == 0 {
        seq![(k, v)]
    } else if m[0].0 == k {
        seq![(k, v)] + m.drop_first()
    } else {
        seq![m[0]] + spec_prop_insert(m.drop_first(), k, v)
    }
}

proof fn lemma_prop_insert_found(m: Seq<(Seq<char>, ValueV)>, k: Seq<char>, v: ValueV, at: int)
    requires
        0 <= at < m.len(),
        m[at].0 == k,
        forall|j: int| 0 <= j < at ==> m[j].0 != k,
    ensures
        spec_prop_insert(m, k, v) == m.update(at, (k, v)),
    decreases m.len(),
{
    if at == 0 {
        assert(spec_prop_insert(m, k, v) =~= m.update(0, (k, v)));
    } else {
        assert(forall|j: int| 0 <= j < at - 1 ==> m.drop_first()[j] == m[j + 1]);
        lemma_prop_insert_found(m.drop_first(), k, v, at - 1);
        assert(spec_prop_insert(m, k, v) =~= m.update(at, (k, v)));
    }
}

proof fn lemma_prop_insert_missing(m: Seq<(Seq<char>, ValueV)>, k: Seq<char>, v: ValueV)
    requires
        forall|j: int| 0 <= j < m.len() ==> m[j].0 != k,
    ensures
        spec_prop_insert(m, k, v) == m.push((k, v)),
    decreases m.len(),
{
    if m.len() == 0 {
        assert(spec_prop_insert(m, k, v) =~= m.push((k, v)));
    } else {
        assert(forall|j: int| 0 <= j < m.drop_first().len() ==> m.drop_first()[j] == m[j + 1]);
        lemma_prop_insert_missing(m.drop_first(), k, v);
        assert(spec_prop_insert(m, k, v) =~= m.push((k, v)));
    }
}

/// The specified values of one element: property-name/value entries with
/// unique keys; applying an existing name overwrites its value.
#[derive(Debug, PartialEq)]
pub struct PropertyMap {
    entries: Vec<(String, Value)>,
}

impl View for PropertyMap {
    type V = Seq<(Seq<char>, ValueV)>;

    closed spec fn view(&self) -> Seq<(Seq<char>, ValueV)> {
        Seq::new(
            self.entries@.len(),
            |i: int|
                {
                    let (a, b) = self.entries@[i];
                    (a@, b@)
                },
        )
    }
}

impl PropertyMap {
    pub fn new() -> (r: PropertyMap)
        ensures
            r@ == Seq::<(Seq<char>, ValueV)>::empty(),
    {
        let r = PropertyMap { entries: Vec::new() };
        proof {
            assert(r@ =~= Seq::<(Seq<char>, ValueV)>::empty());
        }
        r
    }

    /// Bind `name` to `value`; an existing binding of `name` is overwritten.
    pub fn insert(&mut self, name: String, value: Value)
        ensures
            final(self)@ == spec_prop_insert(old(self)@, name@, value@),
    {
        let ghost pre = self@;
        let n = self.entries.len();
        let mut i: usize = 0;
        while i < n
            invariant
                n == self.entries.len(),
                i <= n,
                self@ == pre,
                pre == old(self)@,
                forall|j: int| 0 <= j < i ==> pre[j].0 != name@,
            decreases n - i,
        {
            if str_eq(self.entries[i].0.as_str(), name.as_str()) {
                let ghost at = i as int;
                self.entries[i] = (name, value);
                proof {
                    lemma_prop_insert_found(pre, name@, value@, at);
                    assert(self@ =~= pre.update(at, (name@, value@)));
                }
                return ;
            }
            i = i + 1;
        }
        self.entries.push((name, value));
        proof {
            lemma_prop_insert_missing(pre, name@, value@);
            assert(self@ =~= pre.push((name@, value@)));
        }
    }

    /// Look `key` up.
    pub fn get(&self, key: &str) -> (r: Option<&Value>)
        ensures
            match r {
                Some(v) => spec_prop_lookup(self@, key@) == Some(v@),
                None => spec_prop_lookup(self@, key@) is None,
            },
    {
        let n = self.entries.len();
        proof {
            assert(self@.subrange(0, n as int) =~= self@);
        }
        let mut i: usize = 0;
        while i < n
            invariant
                n == self.entries.len(),
                i <= n,
                spec_prop_lookup(self@, key@) == spec_prop_lookup(
                    self@.subrange(i as int, n as int),
                    key@,
                ),
            decreases n - i,
        {
            proof {
                assert(self@.subrange(i as int, n as int).drop_first() =~= self@.subrange(
                    i + 1 as int,
                    n as int,
                ));
            }
            if str_eq(self.entries[i].0.as_str(), key) {
                return Some(&self.entries[i].1);
            }
            i = i + 1;
        }
        None
    }
}

// ---- Selector matching ----

/// Does a simple selector match an element? The tag name, when present, must
/// equal the element's; the id, when present, must equal the element's `id`
/// attribute; every listed class must be among the element's class tokens.
pub open spec fn spec_matches_simple(e: ElementDataV, sel: SimpleSelectorV) -> bool {
    &&& match sel.tag_name {
        Some(t) => e.tag_name == t,
        None => true,
    }
    &&& match sel.id {
        Some(i) => spec_attr_lookup(e.attributes, "id"@) == Some(i),
        None => true,
    }
    &&& forall|k: int|
        0 <= k < sel.class.len() ==> spec_classes(e).contains(#[trigger] sel.class[k])
}

/// Does a selector match an element?
pub open spec fn spec_matches(e: ElementDataV, sel: SelectorV) -> bool {
    match sel {
        SelectorV::Simple(ss) => spec_matches_simple(e, ss),
    }
}

/// Is `x` among the element's class tokens?
fn contains_class(classes: &Vec<String>, x: &String) -> (r: bool)
    ensures
        r == views_of_strings(classes@).contains(x@),
{
    let n = classes.len();
    let mut i: usize = 0;
    while i < n
        invariant
            n == classes.len(),
            i <= n,
            forall|j: int| 0 <= j < i ==> views_of_strings(classes@)[j] != x@,
        decreases n - i,
    {
        if str_eq(classes[i].as_str(), x.as_str()) {
            proof {
                assert(views_of_strings(classes@)[i as int] == x@);
            }
            return true;
        }
        i = i + 1;
    }
    proof {
        if views_of_strings(classes@).contains(x@) {
            let j = choose|j: int|
                0 <= j < views_of_strings(classes@).len() && views_of_strings(classes@)[j] == x@;
            assert(views_of_strings(classes@)[j] == x@);
        }
    }
    false
}

/// Does `elem` match the given simple selector?
pub fn matches_simple_selector(elem: &ElementData, selector: &SimpleSelector) -> (r: bool)
    ensures
        r == spec_matches_simple(elem@, selector@),
{
    match &selector.tag_name {
        Some(name) => {
            if !str_eq(elem.tag_name.as_str(), name.as_str()) {
                return false;
            }
        },
        None => {},
    }
    match &selector.id {
        Some(id) => {
            match elem.id() {
                Some(v) => {
                    if !str_eq(v.as_str(), id.as_str()) {
                        return false;
                    }
                },
                None => {
                    return false;
                },
            }
        },
        None => {},
    }
    let elem_classes = elem.classes();
    let n = selector.class.len();
    let mut i: usize = 0;
    while i < n
        invariant
            n == selector.class.len(),
            i <= n,
            views_of_strings(elem_classes@) == spec_classes(elem@),
            forall|k: int| 0 <= k < i ==> spec_classes(elem@).contains(#[trigger] selector@.class[k]),
        decreases n - i,
    {
        if !contains_class(&elem_classes, &selector.class[i]) {
            proof {
                assert(selector@.class[i as int] == selector.class@[i as int]@);
            }
            return false;
        }
        proof {
            assert(selector@.class[i as int] == selector.class@[i as int]@);
        }
        i = i + 1;
    }
    true
}

/// Does `elem` match `selector`?
pub fn matches(elem: &ElementData, selector: &Selector) -> (r: bool)
    ensures
        r == spec_matches(elem@, selector@),
{
    match selector {
        Selector::Simple(simple_selector) => matches_simple_selector(elem, simple_selector),
    }
}

// ---- Rule matching ----

/// A matched rule: the specificity of the first matching selector (the
/// selector list is pre-sorted descending), and the rule.
pub type MatchedRule<'a> = (Specificity, &'a Rule);

/// The specificity of the first selector in `sels` that matches `e`, if any.
pub open spec fn spec_first_matching(e: ElementDataV, sels: Seq<SelectorV>) -> Option<
    (int, int, int),
>
    decreases sels.len(),
{
    if sels.len() == 0 {
        None
    } else if spec_matches(e, sels[0]) {
        Some(spec_specificity(sels[0]))
    } else {
        spec_first_matching(e, sels.drop_first())
    }
}

/// Match a rule against an element: the rule matches when at least one of its
/// selectors does, and carries the specificity of the first selector that
/// matched.
pub fn match_rule<'a>(elem: &ElementData, rule: &'a Rule) -> (r: Option<MatchedRule<'a>>)
    ensures
        match r {
            Some(m) => spec_first_matching(elem@, rule@.selectors) == Some(
                ((m.0.0 as int, m.0.1 as int, m.0.2 as int)),
            ) && m.1 == rule,
            None => spec_first_matching(elem@, rule@.selectors) is None,
        },
{
    let n = rule.selectors.len();
    proof {
        assert(rule@.selectors.subrange(0, n as int) =~= rule@.selectors);
    }
    let mut i: usize = 0;
    while i < n
        invariant
            n == rule.selectors.len(),
            i <= n,
            spec_first_matching(elem@, rule@.selectors) == spec_first_matching(
                elem@,
                rule@.selectors.subrange(i as int, n as int),
            ),
        decreases n - i,
    {
        proof {
            assert(rule@.selectors.subrange(i as int, n as int).drop_first() =~= rule@
                .selectors.subrange(i + 1 as int, n as int));
            assert(rule@.selectors.subrange(i as int, n as int)[0] == rule.selectors@[i as int]@);
        }
        if matches(elem, &rule.selectors[i]) {
            return Some((rule.selectors[i].specificity(), rule));
        }
        i = i + 1;
    }
    None
}

/// The views of a matched-rule list.
pub open spec fn views_of_matched(s: Seq<(Specificity, &Rule)>) -> Seq<((int, int, int), RuleV)> {
    Seq::new(
        s.len(),
        |i: int|
            {
                let (sp, r) = s[i];
                ((sp.0 as int, sp.1 as int, sp.2 as int), r@)
            },
    )
}

/// The rules of `rules[i..]` that match `e`, in stylesheet order, each with
/// the specificity of its first matching selector.
pub open spec fn spec_matching_rules_from(e: ElementDataV, rules: Seq<RuleV>, i: int) -> Seq<
    ((int, int, int), RuleV),
>
    decreases rules.len() - i,
{
    if i < 0 || i >= rules.len() {
        Seq::empty()
    } else {
        let rest = spec_matching_rules_from(e, rules, i + 1);
        match spec_first_matching(e, rules[i].selectors) {
            Some(sp) => seq![(sp, rules[i])] + rest,
            None => rest,
        }
    }
}

fn matching_rules_from<'a>(elem: &ElementData, rules: &'a Vec<Rule>, i: usize) -> (r: Vec<
    MatchedRule<'a>,
>)
    requires
        i <= rules.len(),
    ensures
        views_of_matched(r@) == spec_matching_rules_from(elem@, views_of_rules(rules@), i as int),
    decreases rules.len() - i,
{
    if i >= rules.len() {
        let r: Vec<MatchedRule<'a>> = Vec::new();
        proof {
            assert(views_of_matched(r@) =~= spec_matching_rules_from(
                elem@,
                views_of_rules(rules@),
                i as int,
            ));
        }
        return r;
    }
    let m = match_rule(elem, &rules[i]);
    let mut rest = matching_rules_from(elem, rules, i + 1);
    let ghost restv = views_of_matched(rest@);
    match m {
        Some(mr) => {
            rest.insert(0, mr);
            proof {
                assert(rules@[i as int]@ == views_of_rules(rules@)[i as int]);
                assert(views_of_matched(rest@) =~= spec_matching_rules_from(
                    elem@,
                    views_of_rules(rules@),
                    i as int,
                ));
            }
            rest
        },
        None => {
            proof {
                assert(rules@[i as int]@ == views_of_rules(rules@)[i as int]);
            }
            rest
        },
    }
}

/// The rules of a stylesheet that match the given element, in stylesheet
/// order.
pub fn matching_rules<'a>(elem: &ElementData, stylesheet: &'a Stylesheet) -> (r: Vec<
    MatchedRule<'a>,
>)
    ensures
        views_of_matched(r@) == spec_matching_rules_from(elem@, stylesheet@.rules, 0),
{
    matching_rules_from(elem, &stylesheet.rules, 0)
}

// ---- The cascade ----

/// Insert a matched rule into an already-sorted prefix, keeping ascending,
/// stable specificity order: `x` goes after every element with specificity
/// less than or equal to its own.
pub open spec fn insert_matched_asc(
    sorted: Seq<((int, int, int), RuleV)>,
    x: ((int, int, int), RuleV),
) -> Seq<((int, int, int), RuleV)>
    decreases sorted.len(),
{
    if sorted.len() > 0 && spec_lt3(x.0, sorted.last().0) {
        insert_matched_asc(sorted.drop_last(), x).push(sorted.last())
    } else {
        sorted.push(x)
    }
}

/// Stable insertion sort of matched rules, ascending by specificity, so that
/// higher-specificity rules are applied later and win; ties keep stylesheet
/// order.
pub open spec fn sort_matched_asc(ms: Seq<((int, int, int), RuleV)>) -> Seq<
    ((int, int, int), RuleV),
>
    decreases ms.len(),
{
    if ms.len() == 0 {
        Seq::empty()
    } else {
        insert_matched_asc(sort_matched_asc(ms.drop_last()), ms.last())
    }
}

/// Ascending by specificity: no later matched rule ranks below an earlier
/// one, so higher-specificity rules are applied later and win.
pub open spec fn matched_sorted_asc(s: Seq<((int, int, int), RuleV)>) -> bool {
    forall|i: int, j: int|
        0 <= i < j < s.len() ==> !spec_lt3((#[trigger] s[j]).0, (#[trigger] s[i]).0)
}

proof fn lemma_insert_matched_asc_props(s: Seq<((int, int, int), RuleV)>, x: ((int, int, int), RuleV))
    requires
        matched_sorted_asc(s),
    ensures
        matched_sorted_asc(insert_matched_asc(s, x)),
        insert_matched_asc(s, x).to_multiset() == s.to_multiset().insert(x),
        insert_matched_asc(s, x).len() == s.len() + 1,
        forall|k: int|
            0 <= k < insert_matched_asc(s, x).len() ==> #[trigger] insert_matched_asc(s, x)[k]
                == x || s.contains(insert_matched_asc(s, x)[k]),
    decreases s.len(),
{
    broadcast use vstd::seq_lib::group_to_multiset_ensures;

    let r = insert_matched_asc(s, x);
    if s.len() > 0 && spec_lt3(x.0, s.last().0) {
        let dl = s.drop_last();
        assert(matched_sorted_asc(dl)) by {
            assert(forall|i: int| 0 <= i < dl.len() ==> dl[i] == s[i]);
        }
        lemma_insert_matched_asc_props(dl, x);
        let r0 = insert_matched_asc(dl, x);
        assert(matched_sorted_asc(r)) by {
            assert forall|i: int, j: int| 0 <= i < j < r.len() implies !spec_lt3(
                r[j].0,
                r[i].0,
            ) by {
                if j < r0.len() {
                    assert(r[i] == r0[i] && r[j] == r0[j]);
                } else {
                    assert(r[i] == r0[i] && r[j] == s.last());
                    if r0[i] == x {
                    } else {
                        let m = choose|m: int| 0 <= m < dl.len() && dl[m] == r0[i];
                        assert(s[m] == r0[i]);
                        assert(!spec_lt3(s.last().0, s[m].0));
                    }
                }
            }
        }
        assert(r.to_multiset() =~= s.to_multiset().insert(x)) by {
            assert(r =~= r0.push(s.last()));
            assert(s =~= dl.push(s.last()));
            assert(r.to_multiset() =~= r0.to_multiset().insert(s.last()));
            assert(s.to_multiset() =~= dl.to_multiset().insert(s.last()));
            assert(dl.to_multiset().insert(x).insert(s.last()) =~= dl.to_multiset().insert(
                s.last(),
            ).insert(x));
        }
        assert forall|k: int| 0 <= k < r.len() implies #[trigger] r[k] == x || s.contains(
            r[k],
        ) by {
            if k < r0.len() {
                assert(r[k] == r0[k]);
                if r0[k] != x {
                    let m = choose|m: int| 0 <= m < dl.len() && dl[m] == r0[k];
                    assert(s[m] == r0[k]);
                }
            } else {
                assert(r[k] == s.last());
                assert(s[s.len() - 1] == s.last());
            }
        }
    } else {
        assert(r =~= s.push(x));
        assert(matched_sorted_asc(r)) by {
            assert forall|i: int, j: int| 0 <= i < j < r.len() implies !spec_lt3(
                r[j].0,
                r[i].0,
            ) by {
                if j < s.len() {
                    assert(r[i] == s[i] && r[j] == s[j]);
                } else {
                    assert(r[i] == s[i] && r[j] == x);
                    assert(!spec_lt3(x.0, s.last().0));
                    assert(!spec_lt3(s.last().0, s[i].0));
                }
            }
        }
        assert(r.to_multiset() =~= s.to_multiset().insert(x));
        assert forall|k: int| 0 <= k < r.len() implies #[trigger] r[k] == x || s.contains(
            r[k],
        ) by {
            if k < s.len() {
                assert(r[k] == s[k]);
            }
        }
    }
}

/// Law: the cascade's sort arranges an element's matched rules ascending by
/// specificity and keeps exactly the matched rules, so that declarations of
/// higher-specificity rules are applied later and win on shared names.
pub proof fn lemma_sort_matched_asc(ms: Seq<((int, int, int), RuleV)>)
    ensures
        matched_sorted_asc(sort_matched_asc(ms)),
        sort_matched_asc(ms).to_multiset() == ms.to_multiset(),
        sort_matched_asc(ms).len() == ms.len(),
    decreases ms.len(),
{
    broadcast use vstd::seq_lib::group_to_multiset_ensures;

    if ms.len() > 0 {
        let dl = ms.drop_last();
        lemma_sort_matched_asc(dl);
        lemma_insert_matched_asc_props(sort_matched_asc(dl), ms.last());
        assert(ms =~= dl.push(ms.last()));
        assert(ms.to_multiset() =~= dl.to_multiset().insert(ms.last()));
        assert(sort_matched_asc(ms).to_multiset() =~= sort_matched_asc(dl).to_multiset().insert(
            ms.last(),
        ));
    }
}

/// Law: within one property map, the last write wins: applying a declaration
/// binds exactly its own property and leaves every other property's value
/// unchanged.
pub proof fn lemma_prop_insert_last_write_wins(
    m: Seq<(Seq<char>, ValueV)>,
    k: Seq<char>,
    v: ValueV,
)
    ensures
        spec_prop_lookup(spec_prop_insert(m, k, v), k) == Some(v),
        forall|k2: Seq<char>|
            k2 != k ==> #[trigger] spec_prop_lookup(spec_prop_insert(m, k, v), k2)
                == spec_prop_lookup(m, k2),
    decreases m.len(),
{
    let r = spec_prop_insert(m, k, v);
    if m.len() == 0 {
        assert forall|k2: Seq<char>| k2 != k implies #[trigger] spec_prop_lookup(r, k2)
            == spec_prop_lookup(m, k2) by {
            assert(r.drop_first() =~= m);
        }
    } else if m[0].0 == k {
        assert(r.drop_first() =~= m.drop_first());
        assert(spec_prop_lookup(r, k) == Some(v));
        assert forall|k2: Seq<char>| k2 != k implies #[trigger] spec_prop_lookup(r, k2)
            == spec_prop_lookup(m, k2) by {
            assert(spec_prop_lookup(r, k2) == spec_prop_lookup(r.drop_first(), k2));
            assert(spec_prop_lookup(m, k2) == spec_prop_lookup(m.drop_first(), k2));
        }
    } else {
        lemma_prop_insert_last_write_wins(m.drop_first(), k, v);
        assert(r[0] == m[0]);
        assert(r.drop_first() =~= spec_prop_insert(m.drop_first(), k, v));
        assert(spec_prop_lookup(r, k) == Some(v));
        assert forall|k2: Seq<char>| k2 != k implies #[trigger] spec_prop_lookup(r, k2)
            == spec_prop_lookup(m, k2) by {
            if m[0].0 != k2 {
                assert(spec_prop_lookup(r, k2) == spec_prop_lookup(r.drop_first(), k2));
                assert(spec_prop_lookup(m, k2) == spec_prop_lookup(m.drop_first(), k2));
            }
        }
    }
}

fn insert_matched_sorted<'a>(v: &mut Vec<MatchedRule<'a>>, x: MatchedRule<'a>)
    ensures
        views_of_matched(final(v)@) == insert_matched_asc(views_of_matched(old(v)@), ((x.0.0 as int, x.0.1 as int, x.0.2 as int), x.1@)),
    decreases old(v)@.len(),
{
    let ghost pre = v@;
    if v.len() > 0 {
        let sl = v[v.len() - 1].0;
        if specificity_lt(x.0, sl) {
            let last = v.pop().unwrap();
            proof {
                assert(views_of_matched(v@) =~= views_of_matched(pre).drop_last());
            }
            insert_matched_sorted(v, x);
            v.push(last);
            proof {
                assert(views_of_matched(v@) =~= insert_matched_asc(
                    views_of_matched(pre).drop_last(),
                    ((x.0.0 as int, x.0.1 as int, x.0.2 as int), x.1@),
                ).push(views_of_matched(pre).last()));
            }
            return ;
        }
    }
    v.push(x);
    proof {
        assert(views_of_matched(v@) =~= views_of_matched(pre).push(
            ((x.0.0 as int, x.0.1 as int, x.0.2 as int), x.1@),
        ));
    }
}

fn sort_matched<'a>(v: &mut Vec<MatchedRule<'a>>)
    ensures
        views_of_matched(final(v)@) == sort_matched_asc(views_of_matched(old(v)@)),
    decreases old(v)@.len(),
{
    let ghost pre = v@;
    if v.len() == 0 {
        proof {
            assert(views_of_matched(pre) =~= Seq::<((int, int, int), RuleV)>::empty());
        }
        return ;
    }
    let x = v.pop().unwrap();
    proof {
        assert(views_of_matched(v@) =~= views_of_matched(pre).drop_last());
        assert(views_of_matched(pre).last() == ((x.0.0 as int, x.0.1 as int, x.0.2 as int), x.1@));
    }
    sort_matched(v);
    insert_matched_sorted(v, x);
}

/// Apply the declarations of `ds[i..]`, in order, onto `m`: later
/// declarations of the same property name win.
pub open spec fn spec_apply_decls_from(
    m: Seq<(Seq<char>, ValueV)>,
    ds: Seq<DeclarationV>,
    i: int,
) -> Seq<(Seq<char>, ValueV)>
    decreases ds.len() - i,
{
    if i < 0 || i >= ds.len() {
        m
    } else {
        spec_apply_decls_from(spec_prop_insert(m, ds[i].name, ds[i].value), ds, i + 1)
    }
}

/// Apply the declarations of the matched rules `ms[i..]`, in order.
pub open spec fn spec_apply_rules_from(
    m: Seq<(Seq<char>, ValueV)>,
    ms: Seq<((int, int, int), RuleV)>,
    i: int,
) -> Seq<(Seq<char>, ValueV)>
    decreases ms.len() - i,
{
    if i < 0 || i >= ms.len() {
        m
    } else {
        spec_apply_rules_from(spec_apply_decls_from(m, ms[i].1.declarations, 0), ms, i + 1)
    }
}

/// What the cascade yields for one element: its matching rules, sorted
/// ascending by specificity (stable), their declarations applied in that
/// order, later writes winning.
pub open spec fn spec_specified_values(e: ElementDataV, sheet: StylesheetV) -> Seq<
    (Seq<char>, ValueV),
> {
    spec_apply_rules_from(
        Seq::empty(),
        sort_matched_asc(spec_matching_rules_from(e, sheet.rules, 0)),
        0,
    )
}

fn apply_decls_from(m: PropertyMap, decls: &Vec<Declaration>, i: usize) -> (r: PropertyMap)
    requires
        i <= decls.len(),
    ensures
        r@ == spec_apply_decls_from(m@, decls@.map_values(|d: Declaration| d@), i as int),
    decreases decls.len() - i,
{
    if i >= decls.len() {
        return m;
    }
    let mut m2 = m;
    m2.insert(decls[i].name.clone(), decls[i].value.clone());
    proof {
        assert(decls@.map_values(|d: Declaration| d@)[i as int] == decls@[i as int]@);
    }
    apply_decls_from(m2, decls, i + 1)
}

fn apply_rules_from<'a>(m: PropertyMap, rules: &Vec<MatchedRule<'a>>, i: usize) -> (r: PropertyMap)
    requires
        i <= rules.len(),
    ensures
        r@ == spec_apply_rules_from(m@, views_of_matched(rules@), i as int),
    decreases rules.len() - i,
{
    if i >= rules.len() {
        return m;
    }
    let m2 = apply_decls_from(m, &rules[i].1.declarations, 0);
    proof {
        assert(views_of_matched(rules@)[i as int].1 == rules@[i as int].1@);
        assert(rules@[i as int].1@.declarations == rules[i as int].1.declarations@.map_values(
            |d: Declaration| d@,
        ));
    }
    apply_rules_from(m2, rules, i + 1)
}

/// Apply the stylesheet to one element, returning its specified values.
pub fn specified_values(elem: &ElementData, stylesheet: &Stylesheet) -> (r: PropertyMap)
    ensures
        r@ == spec_specified_values(elem@, stylesheet@),
{
    let mut rules = matching_rules(elem, stylesheet);
    sort_matched(&mut rules);
    apply_rules_from(PropertyMap::new(), &rules, 0)
}

// ---- The styled tree ----

/// A styled node: the document node it was derived from, its specified
/// values, and styled children mirroring the document children. It borrows
/// the document tree and is discarded, not updated, if that tree or the
/// stylesheet changes.
pub struct StyledNode<'a> {
    pub node: &'a Node,
    pub specified_values: PropertyMap,
    pub children: Vec<StyledNode<'a>>,
}

#[verifier::ext_equal]
pub ghost struct StyledNodeV {
    pub node: NodeV,
    pub specified_values: Seq<(Seq<char>, ValueV)>,
    pub children: Seq<StyledNodeV>,
}

/// The mathematical tree a styled node denotes. The out-of-range guard never
/// matters: `Seq::new` consults the function on indices below the length
/// only; it keeps the recursion visibly well-founded.
pub open spec fn spec_styled_view<'a>(n: StyledNode<'a>) -> StyledNodeV
    decreases n,
    via styled_view_decreases
{
    StyledNodeV {
        node: n.node@,
        specified_values: n.specified_values@,
        children: Seq::new(
            n.children@.len(),
            |i: int|
                if 0 <= i < n.children@.len() {
                    spec_styled_view(n.children@[i])
                } else {
                    StyledNodeV {
                        node: NodeV { children: Seq::empty(), node_type: NodeTypeV::Text(Seq::empty()) },
                        specified_values: Seq::empty(),
                        children: Seq::empty(),
                    }
                },
        ),
    }
}

#[via_fn]
proof fn styled_view_decreases<'a>(n: StyledNode<'a>) {
    assert forall|i: int| 0 <= i < n.children@.len() implies (decreases_to!(
        n => n.children@[i])) by {
        assert(decreases_to!(n => n.children));
        assert(decreases_to!(n.children => n.children@));
        assert(decreases_to!(n.children@ => n.children@[i]));
    }
}

impl<'a> View for StyledNode<'a> {
    type V = StyledNodeV;

    open spec fn view(&self) -> StyledNodeV {
        spec_styled_view(*self)
    }
}

/// What the style stage yields for one node: a styled node per document node,
/// with specified values for elements and empty property maps for everything
/// else.
pub open spec fn spec_style_tree(n: NodeV, sheet: StylesheetV) -> StyledNodeV
    decreases n,
    via style_tree_decreases
{
    StyledNodeV {
        node: n,
        specified_values: match n.node_type {
            NodeTypeV::Element(e) => spec_specified_values(e, sheet),
            _ => Seq::empty(),
        },
        children: Seq::new(
            n.children.len(),
            |i: int|
                if 0 <= i < n.children.len() {
                    spec_style_tree(n.children[i], sheet)
                } else {
                    StyledNodeV {
                        node: NodeV { children: Seq::empty(), node_type: NodeTypeV::Text(Seq::empty()) },
                        specified_values: Seq::empty(),
                        children: Seq::empty(),
                    }
                },
        ),
    }
}

#[via_fn]
proof fn style_tree_decreases(n: NodeV, sheet: StylesheetV) {
    assert forall|i: int| 0 <= i < n.children.len() implies (decreases_to!(
        n => n.children[i])) by {
        assert(decreases_to!(n => n.children));
        assert(decreases_to!(n.children => n.children[i]));
    }
}

impl<'a> StyledNode<'a> {
    /// The value bound to `name` among this node's specified values, if any.
    pub fn value(&self, name: &str) -> (r: Option<Value>)
        ensures
            match r {
                Some(v) => spec_prop_lookup(self@.specified_values, name@) == Some(v@),
                None => spec_prop_lookup(self@.specified_values, name@) is None,
            },
    {
        match self.specified_values.get(name) {
            Some(v) => Some(v.clone()),
            None => None,
        }
    }

    /// The node's computed display: `block` or `none` when the `display`
    /// property says so, inline otherwise (lookup misses are not errors; the
    /// default substitutes).
    pub fn display(&self) -> (d: Display)
        ensures
            d == layout::spec_display(self@),
    {
        match self.value("display") {
            Some(v) => match v {
                Value::Keyword(s) => {
                    if str_eq(s.as_str(), "block") {
                        Display::Block
                    } else if str_eq(s.as_str(), "none") {
                        Display::NoDisplay
                    } else {
                        Display::Inline
                    }
                },
                _ => Display::Inline,
            },
            None => Display::Inline,
        }
    }
}

/// Create and return the styled tree for `root` under the one stylesheet
/// passed in; it borrows both inputs.
pub fn style_tree<'a>(root: &'a Node, stylesheet: &'a Stylesheet) -> (r: StyledNode<'a>)
    ensures
        r@ == spec_style_tree(root@, stylesheet@),
    decreases *root,
{
    let ghost rootv = root@;
    let mut children: Vec<StyledNode<'a>> = Vec::new();
    let n = root.children.len();
    let mut i: usize = 0;
    while i < n
        invariant
            n == root.children.len(),
            i <= n,
            rootv == root@,
            children@.len() == i,
            forall|j: int|
                0 <= j < i ==> children@[j]@ == #[trigger] spec_style_tree(
                    rootv.children[j],
                    stylesheet@,
                ),
        decreases n - i,
    {
        proof {
            assert(decreases_to!(*root => root.children));
            assert(decreases_to!(root.children => root.children@));
            assert(decreases_to!(root.children@ => root.children@[i as int]));
        }
        let c = style_tree(&root.children[i], stylesheet);
        proof {
            assert(root.children@[i as int]@ == rootv.children[i as int]);
        }
        children.push(c);
        i = i + 1;
    }
    let specified = match &root.node_type {
        NodeType::Element(e) => specified_values(e, stylesheet),
        _ => PropertyMap::new(),
    };
    let r = StyledNode { node: root, specified_values: specified, children };
    proof {
        assert(r@.children.len() == n);
        assert(spec_style_tree(rootv, stylesheet@).children.len() == rootv.children.len());
        assert(rootv.children.len() == n);
        assert forall|j: int| 0 <= j < n implies r@.children[j] == spec_style_tree(
            rootv,
            stylesheet@,
        ).children[j] by {
            assert(r.children@[j]@ == spec_style_tree(rootv.children[j], stylesheet@));
            assert(r@.children[j] == spec_styled_view(r.children@[j]));
        }
        assert(r@.children =~= spec_style_tree(rootv, stylesheet@).children);
        assert(r@.specified_values =~= spec_style_tree(rootv, stylesheet@).specified_values);
        assert(r@ =~= spec_style_tree(rootv, stylesheet@));
    }
    r
}

} // verus!
