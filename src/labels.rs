//! The list of labels used in a repository: each name once, ordered by its
//! lower-case form, names with the same lower-case form in order of first use.

use vstd::prelude::*;
use crate::parser::Issue;
use crate::text::{chars_of, same_text};

verus! {

/// What `str::to_lowercase` returns for the characters `s`.
pub uninterp spec fn lower_of(s: Seq<char>) -> Seq<char>;

/// Relies on `str::to_lowercase`: the lower-case form of the text, which
/// depends on its characters alone.
#[verifier::external_body]
fn lowercase(s: &str) -> (r: String)
    ensures
        r@ == lower_of(s@),
{
    s.to_lowercase()
}

/// Lexicographic order by character: `a` comes strictly before `b`.
pub open spec fn lex_lt(a: Seq<char>, b: Seq<char>) -> bool
    decreases a.len(),
{
    if b.len() == 0 {
        false
    } else if a.len() == 0 {
        true
    } else if a[0] != b[0] {
        a[0] < b[0]
    } else {
        lex_lt(a.drop_first(), b.drop_first())
    }
}

/// The names of the labels of one issue, in order.
pub open spec fn names_of(i: Issue) -> Seq<Seq<char>> {
    i.labels@.map_values(|l: crate::parser::Label| l.name@)
}

/// The names of all labels of `issues`, issue by issue, in order.
pub open spec fn label_names(issues: Seq<Issue>) -> Seq<Seq<char>>
    decreases issues.len(),
{
    if issues.len() == 0 {
        Seq::empty()
    } else {
        label_names(issues.drop_last()) + names_of(issues.last())
    }
}

/// Each name of `s` once, in order of first occurrence.
pub open spec fn distinct(s: Seq<Seq<char>>) -> Seq<Seq<char>>
    decreases s.len(),
{
    if s.len() == 0 {
        Seq::empty()
    } else if distinct(s.drop_last()).contains(s.last()) {
        distinct(s.drop_last())
    } else {
        distinct(s.drop_last()).push(s.last())
    }
}

/// `v` holds the names of `u` (which are distinct), each once, ordered by
/// lower-case form, and names with equal lower-case forms as in `u`.
pub open spec fn sorted_by_lower(v: Seq<Seq<char>>, u: Seq<Seq<char>>) -> bool {
    &&& v.len() == u.len()
    &&& v.no_duplicates()
    &&& forall|x: Seq<char>| v.contains(x) <==> u.contains(x)
    &&& forall|i: int, j: int|
        0 <= i < j < v.len() ==> !lex_lt(lower_of(#[trigger] v[j]), lower_of(#[trigger] v[i]))
    &&& forall|i: int, j: int|
        0 <= i < j < v.len() && lower_of(#[trigger] v[i]) == lower_of(#[trigger] v[j])
            ==> u.index_of(v[i]) < u.index_of(v[j])
}

proof fn lemma_lex_trichotomy(a: Seq<char>, b: Seq<char>)
    ensures
        lex_lt(a, b) || a == b || lex_lt(b, a),
        !(lex_lt(a, b) && lex_lt(b, a)),
        !lex_lt(a, a),
    decreases a.len(),
{
    if a.len() > 0 && b.len() > 0 {
        lemma_lex_trichotomy(a.drop_first(), b.drop_first());
        if a[0] == b[0] && a.drop_first() == b.drop_first() {
            assert(a =~= seq![a[0]] + a.drop_first());
            assert(b =~= seq![b[0]] + b.drop_first());
        }
    } else if a.len() == 0 && b.len() == 0 {
        assert(a =~= b);
    }
    if a.len() > 0 {
        lemma_lex_trichotomy(a.drop_first(), a.drop_first());
    }
}

proof fn lemma_lex_transitive(a: Seq<char>, b: Seq<char>, c: Seq<char>)
    requires
        lex_lt(a, b),
        lex_lt(b, c),
    ensures
        lex_lt(a, c),
    decreases a.len(),
{
    if a.len() > 0 && a[0] == b[0] && b[0] == c[0] {
        lemma_lex_transitive(a.drop_first(), b.drop_first(), c.drop_first());
    }
}

/// The characters of each string of `v`.
pub open spec fn views(v: Seq<String>) -> Seq<Seq<char>> {
    v.map_values(|s: String| s@)
}

/// The loop state of the insertion sort: `vv` holds the first `n` names of
/// `u`, sorted by lower-case form and stable.
spec fn sort_inv(vv: Seq<Seq<char>>, u: Seq<Seq<char>>, n: int) -> bool {
    &&& 0 <= n <= u.len()
    &&& vv.len() == n
    &&& vv.no_duplicates()
    &&& forall|x: Seq<char>| vv.contains(x) <==> u.take(n).contains(x)
    &&& forall|i: int, j: int|
        0 <= i < j < vv.len() ==> !lex_lt(lower_of(#[trigger] vv[j]), lower_of(#[trigger] vv[i]))
    &&& forall|i: int, j: int|
        0 <= i < j < vv.len() && lower_of(#[trigger] vv[i]) == lower_of(#[trigger] vv[j])
            ==> u.index_of(vv[i]) < u.index_of(vv[j])
}

proof fn lemma_index_of_distinct(u: Seq<Seq<char>>, k: int)
    requires
        u.no_duplicates(),
        0 <= k < u.len(),
    ensures
        u.index_of(u[k]) == k,
{
    assert(u.contains(u[k]));
    let i = u.index_of(u[k]);
    assert(0 <= i < u.len() && u[i] == u[k]);
}

proof fn lemma_insert_step(vv: Seq<Seq<char>>, u: Seq<Seq<char>>, n: int, pos: int)
    requires
        sort_inv(vv, u, n),
        u.no_duplicates(),
        n < u.len(),
        0 <= pos <= vv.len(),
        forall|i: int| 0 <= i < pos ==> !lex_lt(lower_of(u[n]), lower_of(#[trigger] vv[i])),
        pos < vv.len() ==> lex_lt(lower_of(u[n]), lower_of(vv[pos])),
    ensures
        sort_inv(vv.insert(pos, u[n]), u, n + 1),
{
    let x = u[n];
    let kx = lower_of(x);
    let w = vv.insert(pos, x);
    assert(w.len() == n + 1);
    assert forall|i: int| 0 <= i < w.len() implies #[trigger] w[i] == if i < pos {
        vv[i]
    } else if i == pos {
        x
    } else {
        vv[i - 1]
    } by {}
    lemma_index_of_distinct(u, n);
    assert forall|y: Seq<char>| vv.contains(y) implies u.index_of(y) < n && u[u.index_of(y)] == y by {
        assert(u.take(n).contains(y));
        let m = choose|m: int| 0 <= m < n && u.take(n)[m] == y;
        assert(u[m] == y);
        lemma_index_of_distinct(u, m);
    }
    assert(!vv.contains(x)) by {
        if vv.contains(x) {
            assert(u.index_of(x) < n);
        }
    }
    assert(w.no_duplicates()) by {
        assert forall|i: int, j: int| 0 <= i < w.len() && 0 <= j < w.len() && i != j implies w[i]
            != w[j] by {
            if i != pos && j != pos {
            } else if i == pos {
                assert(vv.contains(w[j]));
            } else {
                assert(vv.contains(w[i]));
            }
        }
    }
    assert(u.take(n + 1) == u.take(n).push(x));
    assert forall|y: Seq<char>| w.contains(y) <==> u.take(n + 1).contains(y) by {
        if w.contains(y) {
            let i = choose|i: int| 0 <= i < w.len() && w[i] == y;
            if i != pos {
                let k = if i < pos { i } else { i - 1 };
                assert(vv[k] == y);
                assert(vv.contains(y));
                assert(u.take(n).contains(y));
                let m = choose|m: int| 0 <= m < n && u.take(n)[m] == y;
                assert(u.take(n + 1)[m] == y);
            } else {
                assert(u.take(n + 1)[n] == y);
            }
        }
        if u.take(n + 1).contains(y) {
            let t1 = u.take(n + 1);
            let m = choose|m: int| 0 <= m < t1.len() && t1[m] == y;
            if m == n {
                assert(w[pos] == y);
            } else {
                assert(u.take(n)[m] == y);
                assert(vv.contains(y));
                let k = choose|k: int| 0 <= k < vv.len() && vv[k] == y;
                if k < pos {
                    assert(w[k] == y);
                } else {
                    assert(w[k + 1] == y);
                }
            }
        }
    }
    assert forall|i: int, j: int| 0 <= i < j < w.len() implies !lex_lt(
        lower_of(#[trigger] w[j]),
        lower_of(#[trigger] w[i]),
    ) && (lower_of(w[i]) == lower_of(w[j]) ==> u.index_of(w[i]) < u.index_of(w[j])) by {
        if j < pos || i > pos {
        } else if j == pos {
            assert(vv.contains(w[i]));
        } else if i == pos {
            let kj = lower_of(vv[j - 1]);
            let kp = lower_of(vv[pos]);
            lemma_lex_trichotomy(kx, kj);
            lemma_lex_trichotomy(kp, kj);
            if lex_lt(kj, kx) {
                lemma_lex_transitive(kj, kx, kp);
            }
            if j - 1 > pos {
                assert(!lex_lt(kj, kp));
            }
        } else {
            // i < pos < j: both come from vv, in the same order
            assert(w[i] == vv[i]);
            assert(w[j] == vv[j - 1]);
        }
    }
}

/// Whether `a` comes strictly before `b` in lexicographic order by character.
fn lex_less(a: &Vec<char>, b: &Vec<char>) -> (r: bool)
    ensures
        r == lex_lt(a@, b@),
{
    let mut i: usize = 0;
    assert(a@.skip(0) =~= a@);
    assert(b@.skip(0) =~= b@);
    while i < a.len() && i < b.len()
        invariant
            i <= a@.len(),
            i <= b@.len(),
            lex_lt(a@, b@) == lex_lt(a@.skip(i as int), b@.skip(i as int)),
        decreases a@.len() - i,
    {
        if a[i] != b[i] {
            return a[i] < b[i];
        }
        assert(a@.skip(i as int).drop_first() == a@.skip(i + 1));
        assert(b@.skip(i as int).drop_first() == b@.skip(i + 1));
        i = i + 1;
    }
    i < b.len()
}

/// The names of all labels of `issues`, issue by issue, in order.
fn all_label_names(issues: &Vec<Issue>) -> (r: Vec<String>)
    ensures
        views(r@) == label_names(issues@),
{
    let mut r: Vec<String> = Vec::new();
    let mut i: usize = 0;
    while i < issues.len()
        invariant
            i <= issues@.len(),
            views(r@) == label_names(issues@.take(i as int)),
        decreases issues@.len() - i,
    {
        let labels = &issues[i].labels;
        let ghost before = views(r@);
        let mut j: usize = 0;
        while j < labels.len()
            invariant
                i < issues@.len(),
                j <= labels@.len(),
                *labels == issues@[i as int].labels,
                views(r@) == before + names_of(issues@[i as int]).take(j as int),
            decreases labels@.len() - j,
        {
            let ghost prev = r@;
            r.push(labels[j].name.clone());
            assert(views(r@) =~= views(prev).push(labels@[j as int].name@));
            assert(names_of(issues@[i as int]).take(j + 1) == names_of(issues@[i as int]).take(
                j as int,
            ).push(labels@[j as int].name@));
            assert(views(r@) =~= before + names_of(issues@[i as int]).take(j + 1));
            j = j + 1;
        }
        assert(issues@.take(i + 1).drop_last() == issues@.take(i as int));
        assert(names_of(issues@[i as int]).take(j as int) == names_of(issues@[i as int]));
        i = i + 1;
    }
    assert(issues@.take(i as int) == issues@);
    r
}

proof fn lemma_distinct_no_duplicates(s: Seq<Seq<char>>)
    ensures
        distinct(s).no_duplicates(),
    decreases s.len(),
{
    if s.len() > 0 {
        lemma_distinct_no_duplicates(s.drop_last());
    }
}

/// Each name of `names` once, in order of first occurrence.
fn distinct_names(names: Vec<String>) -> (r: Vec<String>)
    ensures
        views(r@) == distinct(views(names@)),
{
    let mut r: Vec<String> = Vec::new();
    let mut i: usize = 0;
    while i < names.len()
        invariant
            i <= names@.len(),
            views(r@) == distinct(views(names@).take(i as int)),
        decreases names@.len() - i,
    {
        let mut seen = false;
        let mut k: usize = 0;
        while k < r.len()
            invariant
                i < names@.len(),
                k <= r@.len(),
                seen == exists|m: int| 0 <= m < k && r@[m]@ == names@[i as int]@,
            decreases r@.len() - k,
        {
            if same_text(r[k].as_str(), names[i].as_str()) {
                seen = true;
            }
            k = k + 1;
        }
        let ghost prefix = views(names@).take(i + 1);
        assert(prefix.drop_last() == views(names@).take(i as int));
        assert(prefix.last() == names@[i as int]@);
        if seen {
            proof {
                let m = choose|m: int| 0 <= m < k && r@[m]@ == names@[i as int]@;
                assert(views(r@)[m] == prefix.last());
            }
        } else {
            assert(!views(r@).contains(prefix.last())) by {
                if views(r@).contains(prefix.last()) {
                    let m = choose|m: int| 0 <= m < views(r@).len() && views(r@)[m] == prefix.last();
                    assert(r@[m]@ == names@[i as int]@);
                }
            }
            r.push(names[i].clone());
            assert(views(r@) =~= distinct(prefix));
        }
        i = i + 1;
    }
    assert(views(names@).take(i as int) == views(names@));
    r
}

/// The label names used in `issues`, each once, sorted by lower-case form;
/// names with the same lower-case form keep the order in which they first
/// occur.
pub fn sorted_repo_labels(issues: &Vec<Issue>) -> (r: Vec<String>)
    ensures
        sorted_by_lower(views(r@), distinct(label_names(issues@))),
{
    let u = distinct_names(all_label_names(issues));
    let ghost uu = views(u@);
    proof {
        lemma_distinct_no_duplicates(label_names(issues@));
    }
    let mut names: Vec<String> = Vec::new();
    let mut keys: Vec<Vec<char>> = Vec::new();
    let mut n: usize = 0;
    while n < u.len()
        invariant
            uu == views(u@),
            uu.no_duplicates(),
            uu == distinct(label_names(issues@)),
            n <= u@.len(),
            sort_inv(views(names@), uu, n as int),
            keys@.len() == names@.len(),
            forall|i: int| 0 <= i < keys@.len() ==> (#[trigger] keys@[i])@ == lower_of(names@[i]@),
        decreases u@.len() - n,
    {
        let kx = chars_of(lowercase(u[n].as_str()).as_str());
        let mut pos: usize = 0;
        while pos < keys.len() && !lex_less(&kx, &keys[pos])
            invariant
                pos <= keys@.len(),
                keys@.len() == names@.len(),
                kx@ == lower_of(uu[n as int]),
                forall|i: int| 0 <= i < keys@.len() ==> (#[trigger] keys@[i])@ == lower_of(names@[i]@),
                forall|i: int|
                    0 <= i < pos ==> !lex_lt(lower_of(uu[n as int]), lower_of(#[trigger] views(names@)[i])),
            decreases keys@.len() - pos,
        {
            pos = pos + 1;
        }
        proof {
            lemma_insert_step(views(names@), uu, n as int, pos as int);
        }
        let ghost old_names = names@;
        let ghost old_keys = keys@;
        names.insert(pos, u[n].clone());
        keys.insert(pos, kx);
        proof {
            assert(views(names@) =~= views(old_names).insert(pos as int, uu[n as int]));
            assert forall|i: int| 0 <= i < keys@.len() implies (#[trigger] keys@[i])@ == lower_of(
                names@[i]@,
            ) by {
                if i < pos {
                    assert(keys@[i] == old_keys[i]);
                    assert(names@[i] == old_names[i]);
                } else if i > pos {
                    assert(keys@[i] == old_keys[i - 1]);
                    assert(names@[i] == old_names[i - 1]);
                }
            }
        }
        n = n + 1;
    }
    proof {
        assert(uu.take(n as int) == uu);
    }
    names
}

} // verus!
