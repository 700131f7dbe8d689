//! The directory tree: the included paths and their directories, ordered
//! component by component, drawn with box-drawing prefixes.
use vstd::prelude::*;

use crate::output::{banner, OutputFormatter};
use crate::text::{chars_of, push_chars, push_repeat, push_str, string_of};

verus! {

/// Order of characters by code point.
pub open spec fn char_order() -> spec_fn(char, char) -> bool {
    |x: char, y: char| x < y
}

/// Lexicographic order on sequences, from a strict order on their items.
pub open spec fn lex<T>(lt: spec_fn(T, T) -> bool, a: Seq<T>, b: Seq<T>) -> bool
    decreases a.len(),
{
    if a.len() == 0 {
        b.len() > 0
    } else if b.len() == 0 {
        false
    } else if lt(a[0], b[0]) {
        true
    } else if a[0] == b[0] {
        lex(lt, a.skip(1), b.skip(1))
    } else {
        false
    }
}

/// Order of names: lexicographic by code point.
pub open spec fn name_order() -> spec_fn(Seq<char>, Seq<char>) -> bool {
    |x: Seq<char>, y: Seq<char>| lex(char_order(), x, y)
}

/// Order of paths: lexicographic by component, so a directory comes right
/// before what it holds.
pub open spec fn path_lt(a: Seq<Seq<char>>, b: Seq<Seq<char>>) -> bool {
    lex(name_order(), a, b)
}

/// `lt` is irreflexive, transitive and total.
pub open spec fn strict_total<T>(lt: spec_fn(T, T) -> bool) -> bool {
    &&& forall|x: T| !#[trigger] lt(x, x)
    &&& forall|x: T, y: T, z: T| #[trigger] lt(x, y) && #[trigger] lt(y, z) ==> lt(x, z)
    &&& forall|x: T, y: T| x != y ==> #[trigger] lt(x, y) || #[trigger] lt(y, x)
}

proof fn lemma_lex_irreflexive<T>(lt: spec_fn(T, T) -> bool, a: Seq<T>)
    requires
        strict_total(lt),
    ensures
        !lex(lt, a, a),
    decreases a.len(),
{
    if a.len() > 0 {
        assert(!lt(a[0], a[0]));
        lemma_lex_irreflexive(lt, a.skip(1));
    }
}

proof fn lemma_lex_transitive<T>(lt: spec_fn(T, T) -> bool, a: Seq<T>, b: Seq<T>, c: Seq<T>)
    requires
        strict_total(lt),
        lex(lt, a, b),
        lex(lt, b, c),
    ensures
        lex(lt, a, c),
    decreases a.len(),
{
    if a.len() > 0 && b.len() > 0 && c.len() > 0 {
        if a[0] == b[0] && b[0] == c[0] {
            lemma_lex_transitive(lt, a.skip(1), b.skip(1), c.skip(1));
        } else if lt(a[0], b[0]) && lt(b[0], c[0]) {
            assert(lt(a[0], c[0]));
        }
    }
}

proof fn lemma_lex_total<T>(lt: spec_fn(T, T) -> bool, a: Seq<T>, b: Seq<T>)
    requires
        strict_total(lt),
        a != b,
    ensures
        lex(lt, a, b) || lex(lt, b, a),
    decreases a.len(),
{
    if a.len() > 0 && b.len() > 0 {
        if a[0] == b[0] {
            if a.skip(1) == b.skip(1) {
                assert(a =~= seq![a[0]] + a.skip(1));
                assert(b =~= seq![b[0]] + b.skip(1));
            }
            lemma_lex_total(lt, a.skip(1), b.skip(1));
        }
    } else if a.len() == 0 && b.len() == 0 {
        assert(a =~= b);
    }
}

proof fn lemma_lex_strict_total<T>(lt: spec_fn(T, T) -> bool)
    requires
        strict_total(lt),
    ensures
        forall|a: Seq<T>| !#[trigger] lex(lt, a, a),
        forall|a: Seq<T>, b: Seq<T>, c: Seq<T>| #[trigger] lex(lt, a, b) && #[trigger] lex(lt, b, c) ==> lex(lt, a, c),
        forall|a: Seq<T>, b: Seq<T>| a != b ==> #[trigger] lex(lt, a, b) || #[trigger] lex(lt, b, a),
{
    assert forall|a: Seq<T>| !#[trigger] lex(lt, a, a) by {
        lemma_lex_irreflexive(lt, a);
    }
    assert forall|a: Seq<T>, b: Seq<T>, c: Seq<T>| #[trigger] lex(lt, a, b) && #[trigger] lex(lt, b, c) implies lex(lt, a, c) by {
        lemma_lex_transitive(lt, a, b, c);
    }
    assert forall|a: Seq<T>, b: Seq<T>| a != b implies #[trigger] lex(lt, a, b) || #[trigger] lex(lt, b, a) by {
        lemma_lex_total(lt, a, b);
    }
}

/// The path order is a strict total order.
pub proof fn lemma_path_order()
    ensures
        forall|a: Seq<Seq<char>>| !#[trigger] path_lt(a, a),
        forall|a: Seq<Seq<char>>, b: Seq<Seq<char>>, c: Seq<Seq<char>>| #[trigger] path_lt(a, b) && #[trigger] path_lt(b, c)
            ==> path_lt(a, c),
        forall|a: Seq<Seq<char>>, b: Seq<Seq<char>>| a != b ==> #[trigger] path_lt(a, b) || #[trigger] path_lt(b, a),
{
    assert(strict_total(char_order())) by {
        assert forall|x: char, y: char| x != y implies #[trigger] char_order()(x, y) || #[trigger] char_order()(y, x) by {
        }
    }
    lemma_lex_strict_total(char_order());
    assert(strict_total(name_order()));
    lemma_lex_strict_total(name_order());
}

fn name_less(a: &Vec<char>, b: &Vec<char>) -> (r: bool)
    ensures
        r == lex(char_order(), a@, b@),
{
    let mut i: usize = 0;
    proof {
        assert(a@.skip(0) =~= a@);
        assert(b@.skip(0) =~= b@);
    }
    while i < a.len() && i < b.len()
        invariant
            i <= a.len(),
            i <= b.len(),
            lex(char_order(), a@, b@) == lex(char_order(), a@.skip(i as int), b@.skip(i as int)),
        decreases a.len() - i,
    {
        let x = a[i];
        let y = b[i];
        proof {
            assert(a@.skip(i as int)[0] == x);
            assert(b@.skip(i as int)[0] == y);
            assert(a@.skip(i as int).skip(1) =~= a@.skip(i + 1));
            assert(b@.skip(i as int).skip(1) =~= b@.skip(i + 1));
        }
        if x < y {
            return true;
        }
        if x != y {
            return false;
        }
        i = i + 1;
    }
    i < b.len()
}

fn name_eq(a: &Vec<char>, b: &Vec<char>) -> (r: bool)
    ensures
        r == (a@ == b@),
{
    if a.len() != b.len() {
        return false;
    }
    let mut i: usize = 0;
    while i < a.len()
        invariant
            i <= a.len(),
            a.len() == b.len(),
            a@.take(i as int) == b@.take(i as int),
        decreases a.len() - i,
    {
        if a[i] != b[i] {
            return false;
        }
        i = i + 1;
        proof {
            assert(a@.take(i as int) =~= a@.take(i - 1).push(a@[i - 1]));
            assert(b@.take(i as int) =~= b@.take(i - 1).push(b@[i - 1]));
        }
    }
    proof {
        assert(a@ =~= a@.take(i as int));
        assert(b@ =~= b@.take(i as int));
    }
    true
}

/// The components of a path held as vectors.
pub open spec fn comps(p: Seq<Vec<char>>) -> Seq<Seq<char>> {
    p.map_values(|c: Vec<char>| c@)
}

fn path_less(a: &Vec<Vec<char>>, b: &Vec<Vec<char>>) -> (r: bool)
    ensures
        r == path_lt(comps(a@), comps(b@)),
{
    let ghost ca = comps(a@);
    let ghost cb = comps(b@);
    let mut i: usize = 0;
    proof {
        assert(ca.skip(0) =~= ca);
        assert(cb.skip(0) =~= cb);
    }
    while i < a.len() && i < b.len()
        invariant
            i <= a.len(),
            i <= b.len(),
            ca == comps(a@),
            cb == comps(b@),
            path_lt(ca, cb) == lex(name_order(), ca.skip(i as int), cb.skip(i as int)),
        decreases a.len() - i,
    {
        proof {
            assert(ca.skip(i as int)[0] == a@[i as int]@);
            assert(cb.skip(i as int)[0] == b@[i as int]@);
            assert(ca.skip(i as int).skip(1) =~= ca.skip(i + 1));
            assert(cb.skip(i as int).skip(1) =~= cb.skip(i + 1));
        }
        if name_less(&a[i], &b[i]) {
            return true;
        }
        if !name_eq(&a[i], &b[i]) {
            return false;
        }
        i = i + 1;
    }
    i < b.len()
}

fn path_eq(a: &Vec<Vec<char>>, b: &Vec<Vec<char>>) -> (r: bool)
    ensures
        r == (comps(a@) == comps(b@)),
{
    let ghost ca = comps(a@);
    let ghost cb = comps(b@);
    if a.len() != b.len() {
        proof {
            assert(ca.len() != cb.len());
        }
        return false;
    }
    let mut i: usize = 0;
    while i < a.len()
        invariant
            i <= a.len(),
            a.len() == b.len(),
            ca == comps(a@),
            cb == comps(b@),
            ca.take(i as int) == cb.take(i as int),
        decreases a.len() - i,
    {
        if !name_eq(&a[i], &b[i]) {
            proof {
                assert(ca[i as int] != cb[i as int]);
            }
            return false;
        }
        i = i + 1;
        proof {
            assert(ca.take(i as int) =~= ca.take(i - 1).push(ca[i - 1]));
            assert(cb.take(i as int) =~= cb.take(i - 1).push(cb[i - 1]));
        }
    }
    proof {
        assert(ca =~= ca.take(i as int));
        assert(cb =~= cb.take(i as int));
    }
    true
}

/// The parts of `s[i..]` between `/` separators, where `cur` holds the
/// characters already read of the current part.
pub open spec fn parts_from(s: Seq<char>, i: int, cur: Seq<char>) -> Seq<Seq<char>>
    decreases s.len() - i,
{
    if i >= s.len() {
        seq![cur]
    } else if s[i] == '/' {
        seq![cur] + parts_from(s, i + 1, seq![])
    } else {
        parts_from(s, i + 1, cur.push(s[i]))
    }
}

/// The components of a `/`-separated path.
pub open spec fn components(s: Seq<char>) -> Seq<Seq<char>> {
    parts_from(s, 0, seq![])
}

/// Whether every component is non-empty and none is hidden (starts with `.`).
pub open spec fn visible(cs: Seq<Seq<char>>) -> bool {
    forall|j: int| 0 <= j < cs.len() ==> #[trigger] cs[j].len() > 0 && cs[j][0] != '.'
}

/// The components of the first `n` paths that pass the filters and hold no
/// hidden component.
pub open spec fn shown_paths(f: OutputFormatter, paths: Seq<Seq<char>>, n: int) -> Seq<Seq<Seq<char>>>
    decreases n,
{
    if n <= 0 || n > paths.len() {
        seq![]
    } else {
        shown_paths(f, paths, n - 1) + if f.includes(paths[n - 1]) && visible(components(paths[n - 1])) {
            seq![components(paths[n - 1])]
        } else {
            seq![]
        }
    }
}

/// The entries that the first `l` prefixes of path `p` give: each prefix,
/// marked as a directory when it is not the whole path.
pub open spec fn path_items(p: Seq<Seq<char>>, l: int) -> Seq<(Seq<Seq<char>>, bool)>
    decreases l,
{
    if l <= 0 || l > p.len() {
        seq![]
    } else {
        path_items(p, l - 1).push((p.take(l), l < p.len()))
    }
}

/// The entries that the first `q` shown paths give.
pub open spec fn items_upto(kept: Seq<Seq<Seq<char>>>, q: int) -> Seq<(Seq<Seq<char>>, bool)>
    decreases q,
{
    if q <= 0 || q > kept.len() {
        seq![]
    } else {
        items_upto(kept, q - 1) + path_items(kept[q - 1], kept[q - 1].len() as int)
    }
}

/// Strictly increasing in the path order.
pub open spec fn sorted(nodes: Seq<Seq<Seq<char>>>) -> bool {
    forall|i: int, j: int| 0 <= i < j < nodes.len() ==> #[trigger] path_lt(nodes[i], nodes[j])
}

/// Whether some entry is `x`.
pub open spec fn has_item(items: Seq<(Seq<Seq<char>>, bool)>, x: Seq<Seq<char>>) -> bool {
    exists|t: int| 0 <= t < items.len() && #[trigger] items[t] == (x, items[t].1)
}

/// Whether some entry is `x` marked as a directory.
pub open spec fn has_dir_item(items: Seq<(Seq<Seq<char>>, bool)>, x: Seq<Seq<char>>) -> bool {
    exists|t: int| 0 <= t < items.len() && #[trigger] items[t] == (x, true)
}

/// Whether some node is `x`.
pub open spec fn has_node(nodes: Seq<Seq<Seq<char>>>, x: Seq<Seq<char>>) -> bool {
    exists|i: int| 0 <= i < nodes.len() && #[trigger] nodes[i] == x
}

/// The nodes are exactly the entries of `items`, each once, in order, and a
/// node is a directory exactly when some entry marks it so.
pub open spec fn nodes_of(items: Seq<(Seq<Seq<char>>, bool)>, nodes: Seq<Seq<Seq<char>>>, dirs: Seq<bool>) -> bool {
    &&& sorted(nodes)
    &&& dirs.len() == nodes.len()
    &&& forall|i: int| 0 <= i < nodes.len() ==> has_item(items, #[trigger] nodes[i])
    &&& forall|t: int| 0 <= t < items.len() ==> has_node(nodes, #[trigger] items[t].0)
    &&& forall|i: int| 0 <= i < nodes.len() ==> #[trigger] dirs[i] == has_dir_item(items, nodes[i])
}

/// Number of leading components that two paths share.
pub open spec fn shared(a: Seq<Seq<char>>, b: Seq<Seq<char>>) -> nat
    decreases a.len(),
{
    if a.len() == 0 || b.len() == 0 || a[0] != b[0] {
        0
    } else {
        1 + shared(a.skip(1), b.skip(1))
    }
}

/// Whether a node after node `k` shares exactly its first `j` components and
/// has a component at depth `j`: then the level-`j` entry on the way to node
/// `k` is not the last of its siblings.
pub open spec fn later_sibling(nodes: Seq<Seq<Seq<char>>>, k: int, j: int) -> bool {
    exists|m: int| k < m < nodes.len() && #[trigger] shared(nodes[m], nodes[k]) == j && nodes[m].len() > j
}

/// The indentation of node `k` for its first `j` levels.
pub open spec fn indent(nodes: Seq<Seq<Seq<char>>>, k: int, j: int) -> Seq<char>
    decreases j,
{
    if j <= 0 {
        seq![]
    } else {
        indent(nodes, k, j - 1) + if later_sibling(nodes, k, j - 1) { "│   "@ } else { "    "@ }
    }
}

/// The line of node `k`: indentation, branch, name, and `/` for a directory.
pub open spec fn tree_line(nodes: Seq<Seq<Seq<char>>>, dirs: Seq<bool>, k: int) -> Seq<char> {
    let d = nodes[k].len() as int;
    indent(nodes, k, d - 1) + (if later_sibling(nodes, k, d - 1) { "├── "@ } else { "└── "@ }) + nodes[k][d - 1]
        + (if dirs[k] { "/"@ } else { seq![] }) + "\n"@
}

/// The lines of the first `n` nodes.
pub open spec fn tree_lines(nodes: Seq<Seq<Seq<char>>>, dirs: Seq<bool>, n: int) -> Seq<char>
    decreases n,
{
    if n <= 0 || n > nodes.len() {
        seq![]
    } else {
        tree_lines(nodes, dirs, n - 1) + tree_line(nodes, dirs, n - 1)
    }
}

/// The node list held as vectors.
pub open spec fn node_views(v: Seq<Vec<Vec<char>>>) -> Seq<Seq<Seq<char>>> {
    v.map_values(|p: Vec<Vec<char>>| comps(p@))
}

/// Splits a path into its components at each `/`.
fn split_components(s: &str) -> (r: Vec<Vec<char>>)
    ensures
        comps(r@) == components(s@),
{
    let cs = chars_of(s);
    let mut out: Vec<Vec<char>> = Vec::new();
    let mut cur: Vec<char> = Vec::new();
    let mut i: usize = 0;
    while i < cs.len()
        invariant
            i <= cs@.len(),
            cs@ == s@,
            comps(out@) + parts_from(s@, i as int, cur@) == components(s@),
        decreases cs@.len() - i,
    {
        let c = cs[i];
        let ghost before = comps(out@);
        if c == '/' {
            let ghost cl = cur@;
            out.push(cur);
            cur = Vec::new();
            proof {
                assert(comps(out@) =~= before.push(cl));
                assert(before.push(cl) + parts_from(s@, i + 1, seq![]) =~= before + (seq![cl] + parts_from(s@, i + 1, seq![])));
            }
        } else {
            cur.push(c);
        }
        i = i + 1;
    }
    let ghost before = comps(out@);
    let ghost cl = cur@;
    out.push(cur);
    proof {
        assert(comps(out@) =~= before.push(cl));
        assert(before + seq![cl] =~= before.push(cl));
    }
    out
}

fn is_visible(cs: &Vec<Vec<char>>) -> (r: bool)
    ensures
        r == visible(comps(cs@)),
{
    let ghost v = comps(cs@);
    let mut j: usize = 0;
    while j < cs.len()
        invariant
            j <= cs.len(),
            v == comps(cs@),
            forall|t: int| 0 <= t < j ==> #[trigger] v[t].len() > 0 && v[t][0] != '.',
        decreases cs.len() - j,
    {
        proof {
            assert(v[j as int] == cs@[j as int]@);
        }
        if cs[j].len() == 0 || cs[j][0] == '.' {
            return false;
        }
        j = j + 1;
    }
    true
}

fn copy_chars(a: &Vec<char>) -> (r: Vec<char>)
    ensures
        r@ == a@,
{
    let mut out: Vec<char> = Vec::new();
    push_chars(&mut out, a);
    out
}

/// The first `l` components of `p`, copied.
fn prefix_of(p: &Vec<Vec<char>>, l: usize) -> (r: Vec<Vec<char>>)
    requires
        l <= p@.len(),
    ensures
        comps(r@) == comps(p@).take(l as int),
{
    let mut out: Vec<Vec<char>> = Vec::new();
    let mut j: usize = 0;
    while j < l
        invariant
            j <= l,
            l <= p@.len(),
            comps(out@) == comps(p@).take(j as int),
        decreases l - j,
    {
        let ghost before = comps(out@);
        out.push(copy_chars(&p[j]));
        j = j + 1;
        proof {
            assert(comps(out@) =~= before.push(p@[j - 1]@));
            assert(comps(p@).take(j as int) =~= comps(p@).take(j - 1).push(comps(p@)[j - 1]));
        }
    }
    out
}

proof fn lemma_items_push(items: Seq<(Seq<Seq<char>>, bool)>, e: (Seq<Seq<char>>, bool))
    ensures
        forall|x: Seq<Seq<char>>| #[trigger] has_item(items.push(e), x) == (has_item(items, x) || e.0 == x),
        forall|x: Seq<Seq<char>>| #[trigger] has_dir_item(items.push(e), x) == (has_dir_item(items, x) || (e.0 == x
            && e.1)),
{
    assert forall|x: Seq<Seq<char>>| #[trigger] has_item(items.push(e), x) == (has_item(items, x) || e.0 == x) by {
        lemma_items_push_keeps(items, e, x);
    }
    assert forall|x: Seq<Seq<char>>| #[trigger] has_dir_item(items.push(e), x) == (has_dir_item(items, x) || (e.0
        == x && e.1)) by {
        lemma_items_push_keeps(items, e, x);
    }
}

proof fn lemma_items_push_keeps(items: Seq<(Seq<Seq<char>>, bool)>, e: (Seq<Seq<char>>, bool), x: Seq<Seq<char>>)
    ensures
        has_item(items.push(e), x) == (has_item(items, x) || e.0 == x),
        has_dir_item(items.push(e), x) == (has_dir_item(items, x) || (e.0 == x && e.1)),
{
    let it2 = items.push(e);
    if has_item(items, x) {
        let t = choose|t: int| 0 <= t < items.len() && #[trigger] items[t] == (x, items[t].1);
        assert(it2[t] == items[t]);
    }
    if has_dir_item(items, x) {
        let t = choose|t: int| 0 <= t < items.len() && #[trigger] items[t] == (x, true);
        assert(it2[t] == items[t]);
    }
    if e.0 == x {
        assert(it2[items.len() as int] == (x, it2[items.len() as int].1));
    }
    if e.0 == x && e.1 {
        assert(it2[items.len() as int] == (x, true));
    }
    if has_item(it2, x) {
        let t = choose|t: int| 0 <= t < it2.len() && #[trigger] it2[t] == (x, it2[t].1);
        if t < items.len() {
            assert(items[t] == it2[t]);
        }
    }
    if has_dir_item(it2, x) {
        let t = choose|t: int| 0 <= t < it2.len() && #[trigger] it2[t] == (x, true);
        if t < items.len() {
            assert(items[t] == it2[t]);
        }
    }
}

/// Adds the entry `(x, is_dir)` to a sorted node list.
fn insert_node(
    nodes: &mut Vec<Vec<Vec<char>>>,
    dirs: &mut Vec<bool>,
    x: Vec<Vec<char>>,
    is_dir: bool,
    Ghost(items): Ghost<Seq<(Seq<Seq<char>>, bool)>>,
)
    requires
        nodes_of(items, node_views(old(nodes)@), old(dirs)@),
        forall|k: int| 0 <= k < old(nodes)@.len() ==> #[trigger] old(nodes)@[k]@.len() > 0,
        x@.len() > 0,
    ensures
        nodes_of(items.push((comps(x@), is_dir)), node_views(final(nodes)@), final(dirs)@),
        forall|k: int| 0 <= k < final(nodes)@.len() ==> #[trigger] final(nodes)@[k]@.len() > 0,
{
    proof {
        lemma_path_order();
    }
    let ghost xv = comps(x@);
    let ghost nv = node_views(nodes@);
    let ghost items2 = items.push((xv, is_dir));
    let ghost d0 = dirs@;
    let n = nodes.len();
    let mut i: usize = 0;
    while i < n
        invariant
            i <= n,
            n == nodes@.len(),
            nv == node_views(nodes@),
            xv == comps(x@),
            nodes_of(items, nv, dirs@),
            dirs@ == d0,
            nodes@ == old(nodes)@,
            x@.len() > 0,
            forall|k: int| 0 <= k < nodes@.len() ==> #[trigger] nodes@[k]@.len() > 0,
            items2 == items.push((xv, is_dir)),
            forall|a: int| 0 <= a < i ==> #[trigger] path_lt(nv[a], xv),
        decreases n - i,
    {
        proof {
            lemma_path_order();
            lemma_items_push(items, (xv, is_dir));
            assert(nv[i as int] == comps(nodes@[i as int]@));
        }
        if path_eq(&nodes[i], &x) {
            let old_dir = dirs[i];
            dirs.set(i, old_dir || is_dir);
            proof {
                let d2 = dirs@;
                assert forall|j: int| 0 <= j < nv.len() implies #[trigger] d2[j] == has_dir_item(items2, nv[j]) by {
                    if j != i {
                        assert(d2[j] == d0[j]);
                        if j < i {
                            assert(path_lt(nv[j], nv[i as int]));
                        } else {
                            assert(path_lt(nv[i as int], nv[j]));
                        }
                        assert(nv[j] != xv);
                    }
                }
                assert forall|t: int| 0 <= t < items2.len() implies has_node(nv, #[trigger] items2[t].0) by {
                    if t == items.len() {
                        assert(nv[i as int] == xv);
                    } else {
                        assert(items2[t] == items[t]);
                    }
                }
                assert forall|j: int| 0 <= j < nv.len() implies has_item(items2, #[trigger] nv[j]) by {
                    assert(has_item(items, nv[j]));
                }
            }
            return;
        }
        if path_less(&x, &nodes[i]) {
            let ghost n0 = nodes@;
            let ghost x0 = x@;
            nodes.insert(i, x);
            dirs.insert(i, is_dir);
            proof {
                assert(nodes@[i as int]@ == x0);
                assert forall|k: int| 0 <= k < nodes@.len() implies #[trigger] nodes@[k]@.len() > 0 by {
                    if k < i {
                        assert(nodes@[k] == n0[k]);
                    } else if k > i {
                        assert(nodes@[k] == n0[k - 1]);
                    }
                }
                let nv2 = node_views(nodes@);
                assert(nv2 =~= nv.insert(i as int, xv));
                let d2 = dirs@;
                assert forall|a: int, b: int| 0 <= a < b < nv2.len() implies #[trigger] path_lt(nv2[a], nv2[b]) by {
                    if b < i {
                        assert(path_lt(nv[a], nv[b]));
                    } else if a < i && b == i {
                    } else if a < i && b > i {
                        assert(path_lt(nv[a], nv[b - 1]));
                    } else if a == i {
                        if b - 1 > i {
                            assert(path_lt(nv[i as int], nv[b - 1]));
                        }
                    } else {
                        assert(path_lt(nv[a - 1], nv[b - 1]));
                    }
                }
                assert(path_lt(xv, nv[i as int]));
                assert forall|j: int| 0 <= j < nv.len() implies #[trigger] nv[j] != xv by {
                    if j < i {
                        assert(path_lt(nv[j], xv));
                    } else if j > i {
                        assert(path_lt(nv[i as int], nv[j]));
                        assert(path_lt(xv, nv[j]));
                    }
                }
                assert(!has_node(nv, xv));
                assert forall|t: int| 0 <= t < items.len() implies #[trigger] items[t].0 != xv by {
                    assert(has_node(nv, items[t].0));
                }
                assert(!has_dir_item(items, xv)) by {
                    if has_dir_item(items, xv) {
                        let t = choose|t: int| 0 <= t < items.len() && #[trigger] items[t] == (xv, true);
                        assert(items[t].0 == xv);
                    }
                }
                assert forall|j: int| 0 <= j < nv2.len() implies #[trigger] d2[j] == has_dir_item(items2, nv2[j]) by {
                    if j < i {
                        assert(d2[j] == d0[j]);
                    } else if j > i {
                        assert(nv2[j] == nv[j - 1]);
                        assert(d2[j] == d0[j - 1]);
                    }
                }
                assert forall|j: int| 0 <= j < nv2.len() implies has_item(items2, #[trigger] nv2[j]) by {
                    if j < i {
                        assert(has_item(items, nv[j]));
                    } else if j > i {
                        assert(has_item(items, nv[j - 1]));
                    }
                }
                assert forall|t: int| 0 <= t < items2.len() implies has_node(nv2, #[trigger] items2[t].0) by {
                    if t == items.len() {
                        assert(nv2[i as int] == xv);
                    } else {
                        assert(items2[t] == items[t]);
                        assert(has_node(nv, items[t].0));
                        let j = choose|j: int| 0 <= j < nv.len() && #[trigger] nv[j] == items[t].0;
                        if j < i {
                            assert(nv2[j] == nv[j]);
                        } else {
                            assert(nv2[j + 1] == nv[j]);
                        }
                    }
                }
            }
            return;
        }
        proof {
            assert(nv[i as int] != xv);
            assert(!path_lt(xv, nv[i as int]));
        }
        i = i + 1;
    }
    nodes.push(x);
    dirs.push(is_dir);
    proof {
        lemma_path_order();
        lemma_items_push(items, (xv, is_dir));
        let nv2 = node_views(nodes@);
        assert(nv2 =~= nv.push(xv));
        let d2 = dirs@;
        assert forall|a: int, b: int| 0 <= a < b < nv2.len() implies #[trigger] path_lt(nv2[a], nv2[b]) by {
            if b < n {
                assert(path_lt(nv[a], nv[b]));
            }
        }
        assert forall|j: int| 0 <= j < nv.len() implies #[trigger] nv[j] != xv by {
            assert(path_lt(nv[j], xv));
        }
        assert forall|t: int| 0 <= t < items.len() implies #[trigger] items[t].0 != xv by {
            assert(has_node(nv, items[t].0));
        }
        assert(!has_dir_item(items, xv)) by {
            if has_dir_item(items, xv) {
                let t = choose|t: int| 0 <= t < items.len() && #[trigger] items[t] == (xv, true);
                assert(items[t].0 == xv);
            }
        }
        assert forall|j: int| 0 <= j < nv2.len() implies #[trigger] d2[j] == has_dir_item(items2, nv2[j]) by {
            if j < n {
                assert(d2[j] == d0[j]);
            }
        }
        assert forall|j: int| 0 <= j < nv2.len() implies has_item(items2, #[trigger] nv2[j]) by {
            if j < n {
                assert(has_item(items, nv[j]));
            }
        }
        assert forall|t: int| 0 <= t < items2.len() implies has_node(nv2, #[trigger] items2[t].0) by {
            if t == items.len() {
                assert(nv2[n as int] == xv);
            } else {
                assert(items2[t] == items[t]);
                assert(has_node(nv, items[t].0));
                let j = choose|j: int| 0 <= j < nv.len() && #[trigger] nv[j] == items[t].0;
                assert(nv2[j] == nv[j]);
            }
        }
    }
}

/// Whether a node among `k+1..m` shares exactly the first `j` components of
/// node `k` and has a component at depth `j`.
pub open spec fn sibling_before(nodes: Seq<Seq<Seq<char>>>, k: int, j: int, m: int) -> bool {
    exists|m2: int| k < m2 < m && #[trigger] shared(nodes[m2], nodes[k]) == j && nodes[m2].len() > j
}

proof fn lemma_sibling_step(nodes: Seq<Seq<Seq<char>>>, k: int, j: int, m: int)
    requires
        k < m,
    ensures
        sibling_before(nodes, k, j, m + 1) == (sibling_before(nodes, k, j, m) || (shared(nodes[m], nodes[k]) == j
            && nodes[m].len() > j)),
{
    if sibling_before(nodes, k, j, m + 1) {
        let m2 = choose|m2: int| k < m2 < m + 1 && #[trigger] shared(nodes[m2], nodes[k]) == j && nodes[m2].len() > j;
        if m2 < m {
            assert(sibling_before(nodes, k, j, m));
        }
    }
    if sibling_before(nodes, k, j, m) {
        let m2 = choose|m2: int| k < m2 < m && #[trigger] shared(nodes[m2], nodes[k]) == j && nodes[m2].len() > j;
        assert(sibling_before(nodes, k, j, m + 1));
    }
}

fn shared_count(a: &Vec<Vec<char>>, b: &Vec<Vec<char>>) -> (r: usize)
    ensures
        r as nat == shared(comps(a@), comps(b@)),
        r <= a@.len(),
        r <= b@.len(),
{
    let ghost ca = comps(a@);
    let ghost cb = comps(b@);
    let mut i: usize = 0;
    proof {
        assert(ca.skip(0) =~= ca);
        assert(cb.skip(0) =~= cb);
    }
    while i < a.len() && i < b.len() && name_eq(&a[i], &b[i])
        invariant
            i <= a.len(),
            i <= b.len(),
            ca == comps(a@),
            cb == comps(b@),
            shared(ca, cb) == i + shared(ca.skip(i as int), cb.skip(i as int)),
        decreases a.len() - i,
    {
        proof {
            assert(ca.skip(i as int)[0] == a@[i as int]@);
            assert(cb.skip(i as int)[0] == b@[i as int]@);
            assert(ca.skip(i as int).skip(1) =~= ca.skip(i + 1));
            assert(cb.skip(i as int).skip(1) =~= cb.skip(i + 1));
        }
        i = i + 1;
    }
    proof {
        if i < a.len() && i < b.len() {
            assert(ca.skip(i as int)[0] == a@[i as int]@);
            assert(cb.skip(i as int)[0] == b@[i as int]@);
        }
    }
    i
}

/// Draws the tree lines of the nodes.
fn render_tree(nodes: &Vec<Vec<Vec<char>>>, dirs: &Vec<bool>) -> (r: Vec<char>)
    requires
        dirs@.len() == nodes@.len(),
        forall|k: int| 0 <= k < nodes@.len() ==> #[trigger] nodes@[k]@.len() > 0,
    ensures
        r@ == tree_lines(node_views(nodes@), dirs@, nodes@.len() as int),
{
    let ghost nv = node_views(nodes@);
    let n = nodes.len();
    let mut out: Vec<char> = Vec::new();
    let mut k: usize = 0;
    while k < n
        invariant
            k <= n,
            n == nodes@.len(),
            dirs@.len() == n,
            nv == node_views(nodes@),
            forall|k2: int| 0 <= k2 < nodes@.len() ==> #[trigger] nodes@[k2]@.len() > 0,
            out@ == tree_lines(nv, dirs@, k as int),
        decreases n - k,
    {
        let d = nodes[k].len();
        proof {
            assert(nv[k as int] == comps(nodes@[k as int]@));
        }
        let mut sib: Vec<bool> = Vec::new();
        let mut j: usize = 0;
        while j < d
            invariant
                j <= d,
                sib@.len() == j,
                forall|t: int| 0 <= t < j ==> !#[trigger] sib@[t],
            decreases d - j,
        {
            sib.push(false);
            j = j + 1;
        }
        proof {
            assert forall|t: int| 0 <= t < d implies #[trigger] sib@[t] == sibling_before(nv, k as int, t, k + 1) by {
                if sibling_before(nv, k as int, t, k + 1) {
                    let m2 = choose|m2: int| k < m2 < k + 1 && #[trigger] shared(nv[m2], nv[k as int]) == t && nv[m2].len() > t;
                }
            }
        }
        let mut m: usize = k + 1;
        while m < n
            invariant
                k < m <= n,
                n == nodes@.len(),
                nv == node_views(nodes@),
                d == nv[k as int].len(),
                sib@.len() == d,
                forall|t: int| 0 <= t < d ==> #[trigger] sib@[t] == sibling_before(nv, k as int, t, m as int),
            decreases n - m,
        {
            let c = shared_count(&nodes[m], &nodes[k]);
            proof {
                assert(nv[m as int] == comps(nodes@[m as int]@));
                assert forall|t: int| 0 <= t < d implies #[trigger] sibling_before(nv, k as int, t, m + 1) == (
                    sibling_before(nv, k as int, t, m as int) || (shared(nv[m as int], nv[k as int]) == t
                    && nv[m as int].len() > t)) by {
                    lemma_sibling_step(nv, k as int, t, m as int);
                }
            }
            if c < d && nodes[m].len() > c {
                sib.set(c, true);
            }
            m = m + 1;
        }
        let ghost before = out@;
        let mut j: usize = 0;
        while j + 1 < d
            invariant
                j + 1 <= d,
                d == nv[k as int].len(),
                sib@.len() == d,
                forall|t: int| 0 <= t < d ==> #[trigger] sib@[t] == later_sibling(nv, k as int, t),
                out@ == before + indent(nv, k as int, j as int),
            decreases d - j,
        {
            if sib[j] {
                push_str(&mut out, "│   ");
            } else {
                push_str(&mut out, "    ");
            }
            j = j + 1;
            proof {
                assert(out@ =~= before + indent(nv, k as int, j as int));
            }
        }
        if sib[d - 1] {
            push_str(&mut out, "├── ");
        } else {
            push_str(&mut out, "└── ");
        }
        push_chars(&mut out, &nodes[k][d - 1]);
        if dirs[k] {
            push_str(&mut out, "/");
        }
        push_str(&mut out, "\n");
        proof {
            assert(nv[k as int][d - 1] == nodes@[k as int]@[d - 1]@);
            assert(out@ =~= before + tree_line(nv, dirs@, k as int));
        }
        k = k + 1;
    }
    out
}

proof fn lemma_items_upto_push(kept: Seq<Seq<Seq<char>>>, c: Seq<Seq<char>>, q: int)
    requires
        0 <= q <= kept.len(),
    ensures
        items_upto(kept.push(c), q) == items_upto(kept, q),
    decreases q,
{
    if q > 0 {
        lemma_items_upto_push(kept, c, q - 1);
        assert(kept.push(c)[q - 1] == kept[q - 1]);
    }
}

/// The texts of the strings.
pub open spec fn texts(v: Seq<String>) -> Seq<Seq<char>> {
    v.map_values(|s: String| s@)
}

/// The heading and lines of the directory tree.
pub open spec fn structure_text(nodes: Seq<Seq<Seq<char>>>, dirs: Seq<bool>) -> Seq<char> {
    "\nDirectory Structure\n"@ + banner(64) + "\n"@ + tree_lines(nodes, dirs, nodes.len() as int)
}

impl OutputFormatter {
    /// The directory tree of the relative `/`-separated file `paths` that pass
    /// the filters and hold no hidden component: each of them and every
    /// directory on the way to one, once, in path order.
    pub fn print_directory_structure(&self, paths: &Vec<String>) -> (r: String)
        ensures
            exists|nodes: Seq<Seq<Seq<char>>>, dirs: Seq<bool>|
                #[trigger] nodes_of(
                    items_upto(shown_paths(*self, texts(paths@), paths@.len() as int), shown_paths(*self, texts(paths@), paths@.len() as int).len() as int),
                    nodes,
                    dirs,
                ) && r@ == structure_text(nodes, dirs),
    {
        let ghost pv = texts(paths@);
        let mut nodes: Vec<Vec<Vec<char>>> = Vec::new();
        let mut dirs: Vec<bool> = Vec::new();
        let ghost mut kept: Seq<Seq<Seq<char>>> = seq![];
        let mut q: usize = 0;
        while q < paths.len()
            invariant
                q <= paths.len(),
                pv == texts(paths@),
                kept == shown_paths(*self, pv, q as int),
                nodes_of(items_upto(kept, kept.len() as int), node_views(nodes@), dirs@),
                forall|k: int| 0 <= k < nodes@.len() ==> #[trigger] nodes@[k]@.len() > 0,
            decreases paths.len() - q,
        {
            proof {
                assert(pv[q as int] == paths@[q as int]@);
            }
            if self.should_include_file(paths[q].as_str()) {
                let cs = split_components(paths[q].as_str());
                if is_visible(&cs) {
                    let ghost cv = comps(cs@);
                    let ghost base = items_upto(kept, kept.len() as int);
                    let mut l0: usize = 0;
                    proof {
                        assert(base + path_items(cv, 0) =~= base);
                    }
                    while l0 < cs.len()
                        invariant
                            l0 <= cs.len(),
                            cv == comps(cs@),
                            nodes_of(base + path_items(cv, l0 as int), node_views(nodes@), dirs@),
                            forall|k: int| 0 <= k < nodes@.len() ==> #[trigger] nodes@[k]@.len() > 0,
                        decreases cs.len() - l0,
                    {
                        let l = l0 + 1;
                        let x = prefix_of(&cs, l);
                        proof {
                            assert(x@.len() == comps(x@).len());
                        }
                        let ghost its = base + path_items(cv, l0 as int);
                        insert_node(&mut nodes, &mut dirs, x, l < cs.len(), Ghost(its));
                        proof {
                            assert(its.push((cv.take(l as int), l < cs.len())) =~= base + path_items(cv, l as int));
                        }
                        l0 = l;
                    }
                    proof {
                        lemma_items_upto_push(kept, cv, kept.len() as int);
                        let k2 = kept.push(cv);
                        assert(k2[kept.len() as int] == cv);
                        assert(items_upto(k2, k2.len() as int) == base + path_items(cv, cv.len() as int));
                        kept = k2;
                    }
                }
            }
            q = q + 1;
        }
        let mut out: Vec<char> = Vec::new();
        push_str(&mut out, "\nDirectory Structure\n");
        push_repeat(&mut out, '=', 64);
        push_str(&mut out, "\n");
        let lines = render_tree(&nodes, &dirs);
        push_chars(&mut out, &lines);
        proof {
            assert(out@ =~= structure_text(node_views(nodes@), dirs@));
        }
        string_of(&out)
    }
}

} // verus!
