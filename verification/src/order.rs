//! Orders of texts and of paths.

use std::cmp::Ordering;
use vstd::prelude::*;
use crate::http::opt_text;
use crate::text::{has_prefix, owned, same, split, split_all, starts_with, str_views, texts};
use crate::text::to_chars;

verus! {

/// The place of two numbers to one another.
pub open spec fn int_order(a: int, b: int) -> Ordering {
    if a < b {
        Ordering::Less
    } else if a == b {
        Ordering::Equal
    } else {
        Ordering::Greater
    }
}

/// The first order that tells apart.
pub open spec fn first_order(a: Ordering, b: Ordering) -> Ordering {
    if a == Ordering::Equal {
        b
    } else {
        a
    }
}

/// The code point of a character.
pub open spec fn code_point(c: char) -> int {
    c as int
}

/// The dictionary order of texts.
pub open spec fn text_order(a: Seq<char>, b: Seq<char>) -> Ordering
    decreases a.len(),
{
    if a.len() == 0 && b.len() == 0 {
        Ordering::Equal
    } else if a.len() == 0 {
        Ordering::Less
    } else if b.len() == 0 {
        Ordering::Greater
    } else {
        first_order(int_order(code_point(a[0]), code_point(b[0])), text_order(a.skip(1), b.skip(1)))
    }
}

/// The order of optional texts: nothing comes first.
pub open spec fn opt_text_order(a: Option<Seq<char>>, b: Option<Seq<char>>) -> Ordering {
    match (a, b) {
        (None, None) => Ordering::Equal,
        (None, Some(_)) => Ordering::Less,
        (Some(_), None) => Ordering::Greater,
        (Some(x), Some(y)) => text_order(x, y),
    }
}

/// The first order that tells apart.
pub fn order_then(a: Ordering, b: Ordering) -> (r: Ordering)
    ensures
        r == first_order(a, b),
{
    match a {
        Ordering::Equal => b,
        _ => a,
    }
}

/// The dictionary order of two texts.
pub fn order_text(a: &str, b: &str) -> (r: Ordering)
    ensures
        r == text_order(a@, b@),
{
    let x = to_chars(a);
    let y = to_chars(b);
    let mut i: usize = 0;
    proof {
        lemma_whole(a@);
        lemma_whole(b@);
    }
    while i < x.len() && i < y.len()
        invariant
            i <= x@.len(),
            i <= y@.len(),
            x@ == a@,
            y@ == b@,
            text_order(a@, b@) == text_order(rest_at(a@, i), rest_at(b@, i)),
        decreases x@.len() - i,
    {
        let p = x[i];
        let q = y[i];
        proof {
            lemma_rest_step(a@, i);
            lemma_rest_step(b@, i);
        }
        if p < q {
            return Ordering::Less;
        }
        if q < p {
            return Ordering::Greater;
        }
        i = i + 1;
    }
    if i < y.len() {
        Ordering::Less
    } else if i < x.len() {
        Ordering::Greater
    } else {
        Ordering::Equal
    }
}

spec fn rest_at(s: Seq<char>, i: usize) -> Seq<char> {
    s.skip(i as int)
}

proof fn lemma_whole(s: Seq<char>)
    ensures
        rest_at(s, 0) == s,
{
    assert(s.skip(0) =~= s);
}

proof fn lemma_rest_step(s: Seq<char>, i: usize)
    requires
        i < s.len(),
        i < usize::MAX,
    ensures
        rest_at(s, i).len() > 0,
        rest_at(s, i)[0] == s[i as int],
        rest_at(s, i).skip(1) == rest_at(s, (i + 1) as usize),
{
    assert(s.skip(i as int).skip(1) =~= s.skip(i + 1));
}

/// The order of optional texts.
pub fn order_opt_text(a: &Option<String>, b: &Option<String>) -> (r: Ordering)
    ensures
        r == opt_text_order(opt_text(*a), opt_text(*b)),
{
    match (a, b) {
        (None, None) => Ordering::Equal,
        (None, Some(_)) => Ordering::Less,
        (Some(_), None) => Ordering::Greater,
        (Some(x), Some(y)) => order_text(x.as_str(), y.as_str()),
    }
}

// ---------------------------------------------------------------------------
// Paths
// ---------------------------------------------------------------------------

/// The components of a path, in the form in which paths are compared: a slash
/// for the root, then every component but empty ones and inner `.`.
pub open spec fn components(path: Seq<char>) -> Seq<Seq<char>> {
    let parts = split_all(path, '/');
    let named = parts.filter(|p: Seq<char>| p.len() > 0 && p != seq!['.']);
    if has_prefix(path, "/"@) {
        seq![seq!['/']] + named
    } else if parts[0] == seq!['.'] {
        seq![seq!['.']] + named
    } else {
        named
    }
}

/// The rank of a component: the root, then `.`, then `..`, then names.
pub open spec fn component_rank(c: Seq<char>) -> int {
    if c == seq!['/'] {
        0
    } else if c == seq!['.'] {
        1
    } else if c == seq!['.', '.'] {
        2
    } else {
        3
    }
}

/// The order of two components: by rank, names in dictionary order.
pub open spec fn component_order(a: Seq<char>, b: Seq<char>) -> Ordering {
    if component_rank(a) < component_rank(b) {
        Ordering::Less
    } else if component_rank(a) > component_rank(b) {
        Ordering::Greater
    } else if component_rank(a) == 3 {
        text_order(a, b)
    } else {
        Ordering::Equal
    }
}

/// The order of two component lists from `i` on: the first difference
/// decides, a shorter list comes first.
pub open spec fn components_order(a: Seq<Seq<char>>, b: Seq<Seq<char>>, i: int) -> Ordering
    decreases a.len() - i,
{
    if i >= a.len() && i >= b.len() {
        Ordering::Equal
    } else if i >= a.len() {
        Ordering::Less
    } else if i >= b.len() {
        Ordering::Greater
    } else {
        match component_order(a[i], b[i]) {
            Ordering::Equal => components_order(a, b, i + 1),
            o => o,
        }
    }
}

/// The order of two paths.
pub open spec fn path_order(a: Seq<char>, b: Seq<char>) -> Ordering {
    components_order(components(a), components(b), 0)
}

fn path_components(path: &str) -> (out: Vec<String>)
    ensures
        texts(out@) == components(path@),
{
    let parts = split(path, '/');
    let ghost all = str_views(parts@);
    let ghost keep = |p: Seq<char>| p.len() > 0 && p != seq!['.'];
    let mut out: Vec<String> = Vec::new();
    proof {
        reveal_strlit(".");
        reveal_strlit("/");
        assert("."@ =~= seq!['.']);
        assert("/"@ =~= seq!['/']);
        crate::text::lemma_split_nonempty(path@, '/');
        assert(parts@.len() == all.len());
    }
    if starts_with(path, "/") {
        out.push(owned("/"));
    } else if same(parts[0], ".") {
        out.push(owned("."));
    }
    let ghost head = texts(out@);
    proof {
        assert(all.take(0).filter(keep) =~= Seq::<Seq<char>>::empty());
        assert(texts(out@) =~= head + all.take(0).filter(keep));
        if has_prefix(path@, "/"@) {
            assert(head =~= seq![seq!['/']]);
        } else if all[0] == seq!['.'] {
            assert(head =~= seq![seq!['.']]);
        } else {
            assert(head =~= Seq::<Seq<char>>::empty());
        }
    }
    let mut i: usize = 0;
    while i < parts.len()
        invariant
            i <= parts@.len(),
            all == str_views(parts@),
            keep == (|p: Seq<char>| p.len() > 0 && p != seq!['.']),
            "."@ == seq!['.'],
            texts(out@) == head + all.take(i as int).filter(keep),
        decreases parts@.len() - i,
    {
        let p = parts[i];
        let ghost before = out@;
        proof {
            assert(all.take(i as int + 1).drop_last() =~= all.take(i as int));
            assert(all.take(i as int + 1).last() == p@);
            reveal(Seq::filter);
        }
        if !p.is_empty() && !same(p, ".") {
            out.push(owned(p));
            proof {
                assert(texts(out@) =~= texts(before).push(p@));
                assert(texts(out@) =~= head + all.take(i as int + 1).filter(keep));
            }
        }
        i = i + 1;
    }
    proof {
        assert(all.take(all.len() as int) =~= all);
        assert(texts(out@) =~= components(path@));
    }
    out
}

fn rank(c: &str) -> (r: u8)
    ensures
        r == component_rank(c@),
{
    proof {
        reveal_strlit("/");
        reveal_strlit(".");
        reveal_strlit("..");
        assert("/"@ =~= seq!['/']);
        assert("."@ =~= seq!['.']);
        assert(".."@ =~= seq!['.', '.']);
    }
    if same(c, "/") {
        0
    } else if same(c, ".") {
        1
    } else if same(c, "..") {
        2
    } else {
        3
    }
}

fn order_component(a: &str, b: &str) -> (r: Ordering)
    ensures
        r == component_order(a@, b@),
{
    let x: u8 = rank(a);
    let y: u8 = rank(b);
    if x < y {
        Ordering::Less
    } else if x > y {
        Ordering::Greater
    } else if x == 3 {
        order_text(a, b)
    } else {
        Ordering::Equal
    }
}

/// The order of two paths.
pub fn order_paths(a: &str, b: &str) -> (r: Ordering)
    ensures
        r == path_order(a@, b@),
{
    let x = path_components(a);
    let y = path_components(b);
    let mut i: usize = 0;
    while i < x.len() && i < y.len()
        invariant
            i <= x@.len(),
            i <= y@.len(),
            texts(x@) == components(a@),
            texts(y@) == components(b@),
            components_at(texts(x@), texts(y@), 0) == components_at(texts(x@), texts(y@), i),
        decreases x@.len() - i,
    {
        proof {
            lemma_element(x@, i);
            lemma_element(y@, i);
        }
        match order_component(x[i].as_str(), y[i].as_str()) {
            Ordering::Equal => {},
            o => return o,
        }
        i = i + 1;
    }
    if i < y.len() {
        Ordering::Less
    } else if i < x.len() {
        Ordering::Greater
    } else {
        Ordering::Equal
    }
}

spec fn components_at(a: Seq<Seq<char>>, b: Seq<Seq<char>>, i: usize) -> Ordering {
    components_order(a, b, index_of(i))
}

spec fn index_of(i: usize) -> int {
    i as int
}

spec fn element_at(a: Seq<Seq<char>>, i: usize) -> Seq<char> {
    a[index_of(i)]
}

proof fn lemma_element(v: Seq<String>, i: usize)
    requires
        i < v.len(),
    ensures
        element_at(texts(v), i) == v[i as int]@,
{
}

// ---------------------------------------------------------------------------
// Laws
// ---------------------------------------------------------------------------

/// The order seen from the other side.
pub open spec fn reversed(o: Ordering) -> Ordering {
    match o {
        Ordering::Less => Ordering::Greater,
        Ordering::Equal => Ordering::Equal,
        Ordering::Greater => Ordering::Less,
    }
}

/// Of three things the first does not come behind the third if each does not
/// come behind the next, and comes before it if one comes before the next.
pub open spec fn chained(ab: Ordering, bc: Ordering, ac: Ordering) -> bool {
    ab != Ordering::Greater && bc != Ordering::Greater ==> {
        &&& ac != Ordering::Greater
        &&& ac == Ordering::Equal <==> ab == Ordering::Equal && bc == Ordering::Equal
    }
}

/// Texts are in a total order: it looks the same from both sides, chains, and
/// only equal texts share a place.
pub proof fn law_texts_are_ordered(a: Seq<char>, b: Seq<char>, c: Seq<char>)
    ensures
        text_order(b, a) == reversed(text_order(a, b)),
        text_order(a, b) == Ordering::Equal <==> a == b,
        chained(text_order(a, b), text_order(b, c), text_order(a, c)),
    decreases a.len(),
{
    if a.len() > 0 && b.len() > 0 {
        let d = if c.len() > 0 {
            c.skip(1)
        } else {
            c
        };
        law_texts_are_ordered(a.skip(1), b.skip(1), d);
        if a[0] == b[0] && a.skip(1) == b.skip(1) {
            assert(a =~= seq![a[0]] + a.skip(1));
            assert(b =~= seq![b[0]] + b.skip(1));
        }
        assert(code_point(a[0]) == code_point(b[0]) ==> a[0] == b[0]);
    } else if a.len() == 0 && b.len() == 0 {
        assert(a =~= b);
    }
}

/// Components are in a total order, and only equal ones share a place.
proof fn lemma_components_are_ordered(a: Seq<char>, b: Seq<char>, c: Seq<char>)
    ensures
        component_order(b, a) == reversed(component_order(a, b)),
        component_order(a, b) == Ordering::Equal <==> a == b,
        chained(component_order(a, b), component_order(b, c), component_order(a, c)),
{
    law_texts_are_ordered(a, b, c);
}

/// Component lists are in a total order from any place on, and only lists
/// that are equal from there on share a place.
proof fn lemma_component_lists(a: Seq<Seq<char>>, b: Seq<Seq<char>>, c: Seq<Seq<char>>, i: int)
    requires
        0 <= i,
    ensures
        components_order(b, a, i) == reversed(components_order(a, b, i)),
        components_order(a, b, i) == Ordering::Equal <==> {
            ||| i >= a.len() && i >= b.len()
            ||| a.len() == b.len() && forall|k: int| i <= k < a.len() ==> a[k] == b[k]
        },
        chained(
            components_order(a, b, i),
            components_order(b, c, i),
            components_order(a, c, i),
        ),
    decreases a.len() - i,
{
    if i < a.len() && i < b.len() {
        let z = if i < c.len() {
            c[i]
        } else {
            Seq::empty()
        };
        lemma_components_are_ordered(a[i], b[i], z);
        lemma_components_are_ordered(b[i], z, a[i]);
        lemma_components_are_ordered(a[i], z, b[i]);
        lemma_component_lists(a, b, c, i + 1);
    }
}

/// Paths are in a total order: it looks the same from both sides, chains, and
/// only paths with equal components share a place.
pub proof fn law_paths_are_ordered(a: Seq<char>, b: Seq<char>, c: Seq<char>)
    ensures
        path_order(b, a) == reversed(path_order(a, b)),
        path_order(a, b) == Ordering::Equal <==> components(a) == components(b),
        chained(path_order(a, b), path_order(b, c), path_order(a, c)),
{
    lemma_component_lists(components(a), components(b), components(c), 0);
    if path_order(a, b) == Ordering::Equal {
        assert(components(a) =~= components(b));
    }
}

/// Whether two paths have the same components.
pub fn same_path(a: &str, b: &str) -> (r: bool)
    ensures
        r == (components(a@) == components(b@)),
{
    proof {
        law_paths_are_ordered(a@, b@, b@);
    }
    match order_paths(a, b) {
        Ordering::Equal => true,
        _ => false,
    }
}

/// The dictionary puts a text before all those that go on behind it, and of
/// two texts that part ways the one with the smaller character first.
pub proof fn law_dictionary(p: Seq<char>, c: char, x: Seq<char>, d: char, y: Seq<char>)
    requires
        code_point(c) < code_point(d),
    ensures
        text_order(p + seq![c] + x, p + seq![d] + y) == Ordering::Less,
        text_order(p, p + seq![c] + x) == Ordering::Less,
    decreases p.len(),
{
    let a = p + seq![c] + x;
    let b = p + seq![d] + y;
    if p.len() > 0 {
        let q = p.skip(1);
        law_dictionary(q, c, x, d, y);
        assert(a.skip(1) =~= q + seq![c] + x);
        assert(b.skip(1) =~= q + seq![d] + y);
        assert(a[0] == p[0] && b[0] == p[0]);
    } else {
        assert(a[0] == c && b[0] == d);
    }
}

/// A missing text comes before any text; two texts are ordered as they are.
pub proof fn law_nothing_comes_first(a: Seq<char>, b: Seq<char>)
    ensures
        opt_text_order(None, Some(a)) == Ordering::Less,
        opt_text_order(Some(a), None) == Ordering::Greater,
        opt_text_order(None, None) == Ordering::Equal,
        opt_text_order(Some(a), Some(b)) == text_order(a, b),
        first_order(Ordering::Less, text_order(a, b)) == Ordering::Less,
        first_order(Ordering::Greater, text_order(a, b)) == Ordering::Greater,
        first_order(Ordering::Equal, text_order(a, b)) == text_order(a, b),
{
}

/// A name in a path.
pub open spec fn is_path_name(n: Seq<char>) -> bool {
    &&& n.len() > 0
    &&& n != seq!['.'] && n != seq!['.', '.']
    &&& forall|i: int| 0 <= i < n.len() ==> #[trigger] n[i] != '/'
}

/// A path is compared by its components: names are those between the slashes,
/// and slashes that follow one another count once.
pub proof fn law_components(names: Seq<Seq<char>>)
    requires
        names.len() > 0,
        forall|i: int| 0 <= i < names.len() ==> is_path_name(#[trigger] names[i]),
    ensures
        components(crate::text::joined_by(names, '/')) == names,
        components(seq!['/'] + crate::text::joined_by(names, '/')) == seq![seq!['/']] + names,
{
    let keep = |p: Seq<char>| p.len() > 0 && p != seq!['.'];
    let path = crate::text::joined_by(names, '/');
    assert forall|i: int, k: int| 0 <= i < names.len() && 0 <= k < names[i].len() implies
        #[trigger] names[i][k] != '/' by {
        assert(is_path_name(names[i]));
    }
    crate::text::law_split_reads_back(names, '/');
    lemma_keep_all(names, keep);
    reveal_strlit("/");
    assert("/"@ =~= seq!['/']);
    assert(is_path_name(names[0]));
    lemma_joined_head(names);
    assert(path.take(1)[0] == names[0][0]);
    let e = Seq::<char>::empty();
    let rooted = seq![e] + names;
    assert forall|i: int, k: int| 0 <= i < rooted.len() && 0 <= k < rooted[i].len() implies
        #[trigger] rooted[i][k] != '/' by {
        assert(names[i - 1][k] != '/');
    }
    crate::text::law_split_reads_back(rooted, '/');
    lemma_joined_rooted(names);
    lemma_keep_rooted(names, keep);
    let s = seq!['/'] + path;
    assert(s.take(1) =~= seq!['/']);
}

proof fn lemma_keep_all(names: Seq<Seq<char>>, keep: spec_fn(Seq<char>) -> bool)
    requires
        keep == (|p: Seq<char>| p.len() > 0 && p != seq!['.']),
        forall|i: int| 0 <= i < names.len() ==> is_path_name(#[trigger] names[i]),
    ensures
        names.filter(keep) == names,
    decreases names.len(),
{
    reveal(Seq::filter);
    if names.len() > 0 {
        let front = names.drop_last();
        assert forall|i: int| 0 <= i < front.len() implies is_path_name(#[trigger] front[i]) by {
            assert(is_path_name(names[i]));
        }
        lemma_keep_all(front, keep);
        assert(is_path_name(names[names.len() - 1]));
        assert(front.push(names.last()) =~= names);
    } else {
        assert(names.filter(keep) =~= names);
    }
}

proof fn lemma_keep_rooted(names: Seq<Seq<char>>, keep: spec_fn(Seq<char>) -> bool)
    requires
        keep == (|p: Seq<char>| p.len() > 0 && p != seq!['.']),
        forall|i: int| 0 <= i < names.len() ==> is_path_name(#[trigger] names[i]),
    ensures
        (seq![Seq::<char>::empty()] + names).filter(keep) == names,
{
    let front = seq![Seq::<char>::empty()];
    lemma_keep_all(names, keep);
    Seq::filter_distributes_over_add(front, names, keep);
    assert(front.filter(keep) =~= Seq::<Seq<char>>::empty()) by {
        reveal(Seq::filter);
        let none = front.drop_last();
        assert(none =~= Seq::<Seq<char>>::empty());
        assert(none.filter(keep) =~= Seq::<Seq<char>>::empty());
        assert(!keep(front.last()));
    }
    assert(Seq::<Seq<char>>::empty() + names =~= names);
}

proof fn lemma_joined_head(names: Seq<Seq<char>>)
    requires
        names.len() > 0,
        names[0].len() > 0,
    ensures
        crate::text::joined_by(names, '/').len() > 0,
        crate::text::joined_by(names, '/')[0] == names[0][0],
    decreases names.len(),
{
    if names.len() > 1 {
        lemma_joined_head(names.drop_last());
    }
}

proof fn lemma_joined_rooted(names: Seq<Seq<char>>)
    requires
        names.len() > 0,
    ensures
        crate::text::joined_by(seq![Seq::<char>::empty()] + names, '/') == seq!['/']
            + crate::text::joined_by(names, '/'),
    decreases names.len(),
{
    let all = seq![Seq::<char>::empty()] + names;
    if names.len() > 1 {
        let front = names.drop_last();
        lemma_joined_rooted(front);
        assert(all.drop_last() =~= seq![Seq::<char>::empty()] + front);
        assert(seq!['/'] + crate::text::joined_by(front, '/') + seq!['/'] + names.last() =~= seq![
            '/',
        ] + (crate::text::joined_by(front, '/') + seq!['/'] + names.last()));
    } else {
        assert(all.drop_last() =~= seq![Seq::<char>::empty()]);
        assert(crate::text::joined_by(all.drop_last(), '/') =~= Seq::<char>::empty());
        assert(Seq::<char>::empty() + seq!['/'] + names.last() =~= seq!['/'] + names.last());
    }
}

/// Of two paths the first name in which they differ decides, by the
/// dictionary; a directory comes before what it holds, and an absolute path
/// before a relative one.
pub proof fn law_paths_by_their_names(p: Seq<Seq<char>>, a: Seq<char>, b: Seq<char>)
    requires
        p.len() > 0,
        forall|i: int| 0 <= i < p.len() ==> is_path_name(#[trigger] p[i]),
        is_path_name(a) && is_path_name(b),
        a != b,
    ensures
        ({
            let base = crate::text::joined_by(p, '/');
            let x = base + seq!['/'] + a;
            let y = base + seq!['/'] + b;
            &&& path_order(x, y) == text_order(a, b)
            &&& path_order(base, x) == Ordering::Less
            &&& path_order(seq!['/'] + base, base) == Ordering::Less
        }),
{
    let base = crate::text::joined_by(p, '/');
    let pa = p.push(a);
    let pb = p.push(b);
    assert(pa.drop_last() =~= p && pb.drop_last() =~= p);
    assert forall|i: int| 0 <= i < pa.len() implies is_path_name(#[trigger] pa[i]) by {
        if i < p.len() {
            assert(is_path_name(p[i]));
        }
    }
    assert forall|i: int| 0 <= i < pb.len() implies is_path_name(#[trigger] pb[i]) by {
        if i < p.len() {
            assert(is_path_name(p[i]));
        }
    }
    law_components(p);
    law_components(pa);
    law_components(pb);
    lemma_same_front(pa, pb, place_of(p.len()), 0);
    lemma_same_front(p, pa, place_of(p.len()), 0);
    assert(seq!['/'] != a && seq!['/'] != b) by {
        assert(seq!['/'][0] == '/');
        if seq!['/'] == a {
            assert(a[0] == '/');
        }
        if seq!['/'] == b {
            assert(b[0] == '/');
        }
    }
    law_texts_are_ordered(a, b, b);
    let r = seq![seq!['/']] + p;
    assert(is_path_name(p[0]));
    assert(p[0] != seq!['/']) by {
        if p[0] == seq!['/'] {
            assert(p[0][0] == '/');
        }
    }
    assert(r[0] == seq!['/']);
}

spec fn place_of(n: nat) -> int {
    n as int
}

proof fn lemma_same_front(a: Seq<Seq<char>>, b: Seq<Seq<char>>, n: int, i: int)
    requires
        0 <= i <= n,
        n <= a.len(),
        n <= b.len(),
        forall|k: int| 0 <= k < n ==> #[trigger] a[k] == b[k],
    ensures
        components_order(a, b, i) == components_order(a, b, n),
    decreases n - i,
{
    if i < n {
        assert(a[i] == b[i]);
        lemma_components_are_ordered(a[i], b[i], b[i]);
        lemma_same_front(a, b, n, i + 1);
    }
}

} // verus!
