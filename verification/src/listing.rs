//! What the server makes of directory listings: which names are OpenSCAD
//! sources, and the order in which names are reported.
//!
//! Names are ordered as Rust orders strings: character by character, by
//! code point (the same order as their UTF-8 bytes), a proper prefix first.
use vstd::prelude::*;
use vstd::string::*;
use vstd::multiset::Multiset;
use crate::text::chars_of;

verus! {

broadcast use {vstd::string::group_string_axioms, vstd::seq_lib::to_multiset_insert};

/// `a` comes no later than `b` in the order of strings.
pub open spec fn text_le(a: Seq<char>, b: Seq<char>) -> bool
    decreases a.len(),
{
    if a.len() == 0 {
        true
    } else if b.len() == 0 {
        false
    } else if a[0] != b[0] {
        (a[0] as int) < (b[0] as int)
    } else {
        text_le(a.drop_first(), b.drop_first())
    }
}

/// Every name of `s` comes no later than the names after it.
pub open spec fn sorted_texts(s: Seq<Seq<char>>) -> bool {
    forall|i: int, j: int| 0 <= i < j < s.len() ==> text_le(#[trigger] s[i], #[trigger] s[j])
}

/// Every name of `s` comes strictly before the names after it.
pub open spec fn strictly_sorted_texts(s: Seq<Seq<char>>) -> bool {
    forall|i: int, j: int|
        0 <= i < j < s.len() ==> text_le(#[trigger] s[i], #[trigger] s[j]) && s[i] != s[j]
}

pub proof fn lemma_text_le_reflexive(a: Seq<char>)
    ensures
        text_le(a, a),
    decreases a.len(),
{
    if a.len() > 0 {
        lemma_text_le_reflexive(a.drop_first());
    }
}

pub proof fn lemma_push_contains(s: Seq<Seq<char>>, e: Seq<char>, x: Seq<char>)
    ensures
        s.push(e).contains(x) <==> (s.contains(x) || x == e),
{
    if s.push(e).contains(x) && x != e {
        let k = choose|k: int| 0 <= k < s.push(e).len() && #[trigger] s.push(e)[k] == x;
        assert(s[k] == x);
    }
    if s.contains(x) {
        let k = choose|k: int| 0 <= k < s.len() && #[trigger] s[k] == x;
        assert(s.push(e)[k] == x);
    }
    if x == e {
        assert(s.push(e)[s.len() as int] == x);
    }
}

pub proof fn lemma_text_le_total(a: Seq<char>, b: Seq<char>)
    ensures
        text_le(a, b) || text_le(b, a),
    decreases a.len(),
{
    if a.len() > 0 && b.len() > 0 && a[0] == b[0] {
        lemma_text_le_total(a.drop_first(), b.drop_first());
    }
}

pub proof fn lemma_text_le_antisymmetric(a: Seq<char>, b: Seq<char>)
    requires
        text_le(a, b),
        text_le(b, a),
    ensures
        a == b,
    decreases a.len(),
{
    if a.len() == 0 {
        assert(b.len() == 0);
        assert(a =~= b);
    } else {
        lemma_text_le_antisymmetric(a.drop_first(), b.drop_first());
        assert(a =~= seq![a[0]] + a.drop_first());
        assert(b =~= seq![b[0]] + b.drop_first());
    }
}

pub proof fn lemma_text_le_transitive(a: Seq<char>, b: Seq<char>, c: Seq<char>)
    requires
        text_le(a, b),
        text_le(b, c),
    ensures
        text_le(a, c),
    decreases a.len(),
{
    if a.len() > 0 && b.len() > 0 && c.len() > 0 && a[0] == b[0] && b[0] == c[0] {
        lemma_text_le_transitive(a.drop_first(), b.drop_first(), c.drop_first());
    }
}

/// Whether `a` comes no later than `b`.
pub fn text_le_exec(a: &str, b: &str) -> (r: bool)
    ensures
        r == text_le(a@, b@),
{
    let x = chars_of(a);
    let y = chars_of(b);
    let mut i: usize = 0;
    assert(x@.skip(0) =~= x@);
    assert(y@.skip(0) =~= y@);
    while i < x.len() && i < y.len() && x[i] == y[i]
        invariant
            i <= x.len(),
            i <= y.len(),
            text_le(x@, y@) == text_le(x@.skip(i as int), y@.skip(i as int)),
        decreases x.len() - i,
    {
        assert(x@.skip(i as int).drop_first() =~= x@.skip(i + 1));
        assert(y@.skip(i as int).drop_first() =~= y@.skip(i + 1));
        i = i + 1;
    }
    if i == x.len() {
        assert(x@.skip(i as int).len() == 0);
        true
    } else if i == y.len() {
        assert(y@.skip(i as int).len() == 0);
        false
    } else {
        assert(x@.skip(i as int)[0] == x@[i as int]);
        assert(y@.skip(i as int)[0] == y@[i as int]);
        x[i] < y[i]
    }
}

/// The names of `v`, ordered; names that compare equal keep their order.
pub fn sorted_names(v: &Vec<String>) -> (r: Vec<String>)
    ensures
        r.deep_view().to_multiset() == v.deep_view().to_multiset(),
        sorted_texts(r.deep_view()),
{
    let mut out: Vec<String> = Vec::new();
    let mut i: usize = 0;
    assert(v.deep_view().take(0) =~= out.deep_view());
    while i < v.len()
        invariant
            i <= v.len(),
            out.deep_view().to_multiset() == v.deep_view().take(i as int).to_multiset(),
            sorted_texts(out.deep_view()),
        decreases v.len() - i,
    {
        let x = &v[i];
        let mut pos: usize = 0;
        while pos < out.len() && text_le_exec(out[pos].as_str(), x.as_str())
            invariant
                pos <= out.len(),
                forall|k: int| 0 <= k < pos ==> text_le(#[trigger] out.deep_view()[k], x@),
            decreases out.len() - pos,
        {
            pos = pos + 1;
        }
        let ghost before = out.deep_view();
        out.insert(pos, x.clone());
        proof {
            assert(out.deep_view() =~= before.insert(pos as int, x@));
            assert(v.deep_view().take(i + 1) =~= v.deep_view().take(i as int).push(x@));
            assert(before.insert(pos as int, x@).to_multiset() == before.to_multiset().insert(x@));
            vstd::seq_lib::to_multiset_build(v.deep_view().take(i as int), x@);
            if pos < before.len() {
                lemma_text_le_total(before[pos as int], x@);
            }
            let s = out.deep_view();
            assert forall|a: int, b: int| 0 <= a < b < s.len() implies text_le(
                #[trigger] s[a],
                #[trigger] s[b],
            ) by {
                if b < pos {
                    assert(s[a] == before[a] && s[b] == before[b]);
                } else if b == pos {
                    assert(s[a] == before[a]);
                } else if a == pos {
                    assert(s[b] == before[b - 1]);
                    if b - 1 > pos {
                        assert(text_le(before[pos as int], before[b - 1]));
                    } else {
                        lemma_text_le_reflexive(before[pos as int]);
                    }
                    lemma_text_le_transitive(x@, before[pos as int], before[b - 1]);
                } else if a < pos {
                    assert(s[a] == before[a] && s[b] == before[b - 1]);
                } else {
                    assert(s[a] == before[a - 1] && s[b] == before[b - 1]);
                }
            }
        }
        i = i + 1;
    }
    assert(v.deep_view().take(v.len() as int) =~= v.deep_view());
    out
}

/// The names of `v`, ordered, each once.
pub fn sorted_unique_names(v: &Vec<String>) -> (r: Vec<String>)
    ensures
        strictly_sorted_texts(r.deep_view()),
        forall|x: Seq<char>| r.deep_view().contains(x) <==> v.deep_view().contains(x),
{
    let s = sorted_names(v);
    let ghost sv = s.deep_view();
    proof {
        assert forall|x: Seq<char>| sv.contains(x) <==> v.deep_view().contains(x) by {
            vstd::seq_lib::to_multiset_contains(sv, x);
            vstd::seq_lib::to_multiset_contains(v.deep_view(), x);
        }
    }
    let mut out: Vec<String> = Vec::new();
    let mut i: usize = 0;
    while i < s.len()
        invariant
            sv == s.deep_view(),
            sorted_texts(sv),
            i <= s.len(),
            strictly_sorted_texts(out.deep_view()),
            forall|x: Seq<char>| out.deep_view().contains(x) <==> sv.take(i as int).contains(x),
            i > 0 ==> out.len() > 0 && out.deep_view().last() == sv[i - 1],
        decreases s.len() - i,
    {
        let ghost before = out.deep_view();
        assert(sv.take(i + 1) =~= sv.take(i as int).push(sv[i as int]));
        if i > 0 && s[i] == s[i - 1] {
            assert(sv[i as int] == sv[i - 1]);
            assert forall|x: Seq<char>| out.deep_view().contains(x) <==> sv.take(i + 1).contains(x) by {
                if x == sv[i as int] {
                    assert(sv.take(i as int)[i - 1] == x);
                }
            }
        } else {
            out.push(s[i].clone());
            proof {
                assert(out.deep_view() =~= before.push(sv[i as int]));
                if i > 0 {
                    assert(sv[i - 1] != sv[i as int]);
                    assert(text_le(sv[i - 1], sv[i as int]));
                }
                let o = out.deep_view();
                assert forall|a: int, b: int| 0 <= a < b < o.len() implies text_le(
                    #[trigger] o[a],
                    #[trigger] o[b],
                ) && o[a] != o[b] by {
                    if b == o.len() - 1 {
                        assert(o[a] == before[a]);
                        assert(before.contains(o[a]));
                        assert(sv.take(i as int).contains(o[a]));
                        let k = choose|k: int| 0 <= k < i && #[trigger] sv.take(i as int)[k] == o[a];
                        assert(sv[k] == o[a]);
                        if k < i - 1 {
                            assert(text_le(sv[k], sv[i - 1]));
                            lemma_text_le_transitive(sv[k], sv[i - 1], sv[i as int]);
                        }
                        if o[a] == o[b] {
                            assert(text_le(sv[k], sv[i - 1]));
                            assert(text_le(sv[i - 1], sv[i as int]));
                            lemma_text_le_transitive(sv[i - 1], sv[i as int], sv[k]);
                            lemma_text_le_antisymmetric(sv[i - 1], sv[i as int]);
                        }
                    } else {
                        assert(o[a] == before[a] && o[b] == before[b]);
                    }
                }
                assert forall|x: Seq<char>| out.deep_view().contains(x) <==> sv.take(i + 1).contains(x) by {
                    lemma_push_contains(before, sv[i as int], x);
                    lemma_push_contains(sv.take(i as int), sv[i as int], x);
                }
            }
        }
        i = i + 1;
    }
    assert(sv.take(s.len() as int) =~= sv);
    out
}

/// The extension that `std::path::Path::extension` gives for a file name
/// without separators: the text after its last `.`, unless that `.` is its
/// first character or there is none.
pub open spec fn extension_of(name: Seq<char>) -> Option<Seq<char>> {
    if name == seq!['.', '.'] {
        None
    } else {
        match last_dot(name) {
            Some(d) => if d == 0 {
                None
            } else {
                Some(name.subrange(d + 1, name.len() as int))
            },
            None => None,
        }
    }
}

/// The position of the last `.` of `s`, if any.
pub open spec fn last_dot(s: Seq<char>) -> Option<int>
    decreases s.len(),
{
    if s.len() == 0 {
        None
    } else if s.last() == '.' {
        Some(s.len() - 1)
    } else {
        last_dot(s.drop_last())
    }
}

proof fn lemma_last_dot(s: Seq<char>)
    ensures
        last_dot(s) matches Some(d) ==> 0 <= d < s.len() && s[d] == '.' && forall|k: int|
            d < k < s.len() ==> s[k] != '.',
        last_dot(s) is None ==> forall|k: int| 0 <= k < s.len() ==> s[k] != '.',
    decreases s.len(),
{
    if s.len() > 0 && s.last() != '.' {
        lemma_last_dot(s.drop_last());
        if last_dot(s.drop_last()) is None {
            assert forall|k: int| 0 <= k < s.len() implies s[k] != '.' by {
                if k < s.len() - 1 {
                    assert(s.drop_last()[k] == s[k]);
                }
            }
        } else {
            let d = last_dot(s.drop_last())->0;
            assert forall|k: int| d < k < s.len() implies s[k] != '.' by {
                if k < s.len() - 1 {
                    assert(s.drop_last()[k] == s[k]);
                }
            }
        }
    }
}

fn last_dot_exec(v: &Vec<char>) -> (r: Option<usize>)
    ensures
        match (r, last_dot(v@)) {
            (Some(a), Some(b)) => a as int == b,
            (None, None) => true,
            _ => false,
        },
{
    let mut k = v.len();
    assert(v@.take(k as int) =~= v@);
    while k > 0 && v[k - 1] != '.'
        invariant
            k <= v.len(),
            last_dot(v@) == last_dot(v@.take(k as int)),
        decreases k,
    {
        assert(v@.take(k as int).drop_last() =~= v@.take(k - 1));
        k = k - 1;
    }
    if k == 0 {
        assert(v@.take(0) =~= Seq::<char>::empty());
        None
    } else {
        Some(k - 1)
    }
}

/// Whether a file name has the extension `scad`, as `Path::extension`
/// reads it.
pub fn has_scad_extension(name: &str) -> (r: bool)
    ensures
        r == (extension_of(name@) == Some(seq!['s', 'c', 'a', 'd'])),
{
    let v = chars_of(name);
    if v.len() == 2 && v[0] == '.' && v[1] == '.' {
        assert(v@ =~= seq!['.', '.']);
        return false;
    }
    assert(v@ != seq!['.', '.']) by {
        if v@ == seq!['.', '.'] {
            assert(v@[0] == '.' && v@[1] == '.');
        }
    }
    proof {
        lemma_last_dot(v@);
    }
    match last_dot_exec(&v) {
        Some(d) => {
            if d == 0 {
                return false;
            }
            let ok = v.len() - d == 5 && v[d + 1] == 's' && v[d + 2] == 'c' && v[d + 3] == 'a' && v[d
                + 4] == 'd';
            proof {
                let e = v@.subrange(d + 1, v@.len() as int);
                if ok {
                    assert(e =~= seq!['s', 'c', 'a', 'd']);
                } else if e == seq!['s', 'c', 'a', 'd'] {
                    assert(e.len() == 4);
                    assert(e[0] == v@[d + 1]);
                    assert(e[1] == v@[d + 2]);
                    assert(e[2] == v@[d + 3]);
                    assert(e[3] == v@[d + 4]);
                }
            }
            ok
        },
        None => false,
    }
}

/// Whether a name ends in `.scad`.
pub fn ends_with_scad(name: &str) -> (r: bool)
    ensures
        r == (name@.len() >= 5 && name@.subrange(name@.len() - 5, name@.len() as int) == seq![
            '.',
            's',
            'c',
            'a',
            'd',
        ]),
{
    let v = chars_of(name);
    let n = v.len();
    if n < 5 {
        return false;
    }
    let ok = v[n - 5] == '.' && v[n - 4] == 's' && v[n - 3] == 'c' && v[n - 2] == 'a' && v[n - 1]
        == 'd';
    proof {
        let e = v@.subrange(n - 5, n as int);
        if ok {
            assert(e =~= seq!['.', 's', 'c', 'a', 'd']);
        } else if e == seq!['.', 's', 'c', 'a', 'd'] {
            assert(e[0] == v@[n - 5]);
            assert(e[1] == v@[n - 4]);
            assert(e[2] == v@[n - 3]);
            assert(e[3] == v@[n - 2]);
            assert(e[4] == v@[n - 1]);
        }
    }
    ok
}

/// The name has the extension `scad`.
pub open spec fn is_scad_model(name: Seq<char>) -> bool {
    extension_of(name) == Some(seq!['s', 'c', 'a', 'd'])
}

/// The names of `s` that have the extension `scad`, in order.
pub open spec fn scad_models_of(s: Seq<Seq<char>>) -> Seq<Seq<char>>
    decreases s.len(),
{
    if s.len() == 0 {
        seq![]
    } else if is_scad_model(s.last()) {
        scad_models_of(s.drop_last()).push(s.last())
    } else {
        scad_models_of(s.drop_last())
    }
}

/// The model files of a directory listing: the names with the extension
/// `scad`, in listing order.
pub fn scad_models(names: &Vec<String>) -> (r: Vec<String>)
    ensures
        r.deep_view() == scad_models_of(names.deep_view()),
{
    let mut out: Vec<String> = Vec::new();
    let mut i: usize = 0;
    while i < names.len()
        invariant
            i <= names.len(),
            out.deep_view() == scad_models_of(names.deep_view().take(i as int)),
        decreases names.len() - i,
    {
        let ghost before = out.deep_view();
        assert(names.deep_view().take(i + 1).drop_last() =~= names.deep_view().take(i as int));
        assert(names.deep_view().take(i + 1).last() == names.deep_view()[i as int]);
        if has_scad_extension(names[i].as_str()) {
            out.push(names[i].clone());
            assert(out.deep_view() =~= before.push(names.deep_view()[i as int]));
        }
        i = i + 1;
    }
    assert(names.deep_view().take(names.len() as int) =~= names.deep_view());
    out
}

} // verus!
