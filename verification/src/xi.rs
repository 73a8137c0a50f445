//! Symbolic coefficient trees.
//!
//! A coefficient is either a leaf holding a symbol name (plus the
//! partial-derivative forms applied to it) or a merge node holding a
//! numerator and a denominator list of children, kept in a canonical
//! sorted order. What the rest of the library observes of a coefficient is
//! its canonical rendering ([`xi_str`]): term summation keys are built
//! from it, so every operation's contract states the renderings of the
//! result exactly.

use vstd::prelude::*;
use vstd::string::StrSliceExecFns;
use vstd::string::StringExecFns;

use crate::form::spec_form_str;
use crate::form::Form;
use crate::registry::registry_index;

verus! {

/// A symbolic coefficient: a leaf with a name, or a merge node with
/// numerator and denominator children. A node with a name ignores its
/// child lists; a node without one renders as the product of its children.
pub struct Xi {
    pub value: Option<String>,
    pub partials: Vec<Form>,
    pub child_num: Vec<Xi>,
    pub child_den: Vec<Xi>,
}

/// Strict lexicographic order on character sequences, by code point.
pub open spec fn lex_lt(a: Seq<char>, b: Seq<char>) -> bool
    decreases a.len(),
{
    if b.len() == 0 {
        false
    } else if a.len() == 0 {
        true
    } else if a[0] as u32 == b[0] as u32 {
        lex_lt(a.drop_first(), b.drop_first())
    } else {
        (a[0] as u32) < (b[0] as u32)
    }
}

/// Lexicographic order on character sequences, by code point.
pub open spec fn lex_le(a: Seq<char>, b: Seq<char>) -> bool {
    a == b || lex_lt(a, b)
}

/// Position of the first structural marker of a child rendering: the xi
/// mark that a leaf's name follows, or the opening parenthesis of a merge
/// node's core. Partial-derivative prefixes hold neither character, so the
/// marker separates the tags from what they apply to.
pub open spec fn marker_pos(r: Seq<char>) -> int
    decreases r.len(),
{
    if r.len() == 0 {
        0
    } else if r[0] == 'ξ' || r[0] == '(' {
        0
    } else {
        1 + marker_pos(r.drop_first())
    }
}

/// The name of a rendered leaf: the text after its xi mark, whatever
/// partial tags stand before it. A merge node's rendering has none.
pub open spec fn leaf_name(r: Seq<char>) -> Option<Seq<char>> {
    let m = marker_pos(r);
    if m < r.len() && r[m] == 'ξ' {
        Some(r.skip(m + 1))
    } else {
        None
    }
}

/// The canonical rank of a leaf name: registry-indexed names take the
/// position of their form in the registry; every other name ranks after
/// them all.
pub open spec fn name_rank(n: Seq<char>) -> int {
    if n == "p"@ {
        0
    } else if n == "23"@ {
        1
    } else if n == "31"@ {
        2
    } else if n == "12"@ {
        3
    } else if n == "0"@ {
        4
    } else if n == "023"@ {
        5
    } else if n == "031"@ {
        6
    } else if n == "012"@ {
        7
    } else if n == "123"@ {
        8
    } else if n == "1"@ {
        9
    } else if n == "2"@ {
        10
    } else if n == "3"@ {
        11
    } else if n == "0123"@ {
        12
    } else if n == "01"@ {
        13
    } else if n == "02"@ {
        14
    } else if n == "03"@ {
        15
    } else {
        16
    }
}

/// The canonical order on child renderings: leaves sort before merge
/// nodes; leaves order by their name, registry-indexed names first in
/// registry order and free names after them alphabetically; whatever
/// remains tied (the applied partials, two merge nodes) orders
/// lexicographically on the full rendering.
pub open spec fn render_le(a: Seq<char>, b: Seq<char>) -> bool {
    match (leaf_name(a), leaf_name(b)) {
        (Some(na), Some(nb)) => {
            let ra = name_rank(na);
            let rb = name_rank(nb);
            if ra != rb {
                ra < rb
            } else if na != nb {
                lex_lt(na, nb)
            } else {
                lex_le(a, b)
            }
        },
        (Some(_), None) => true,
        (None, Some(_)) => false,
        (None, None) => lex_le(a, b),
    }
}

/// The decimal digit characters.
pub open spec fn digit_char(n: int) -> char {
    if n == 0 {
        '0'
    } else if n == 1 {
        '1'
    } else if n == 2 {
        '2'
    } else if n == 3 {
        '3'
    } else if n == 4 {
        '4'
    } else if n == 5 {
        '5'
    } else if n == 6 {
        '6'
    } else if n == 7 {
        '7'
    } else if n == 8 {
        '8'
    } else {
        '9'
    }
}

/// Decimal rendering of a number.
pub open spec fn dec_str(n: nat) -> Seq<char>
    decreases n,
{
    if n < 10 {
        seq![digit_char(n as int)]
    } else {
        dec_str(n / 10) + seq![digit_char((n % 10) as int)]
    }
}

/// Rendering of a list of applied partial derivatives.
pub open spec fn partials_str(ps: Seq<Form>) -> Seq<char>
    decreases ps.len(),
{
    if ps.len() == 0 {
        seq![]
    } else {
        partials_str(ps.drop_last()) + seq!['∂'] + spec_form_str(ps.last())
    }
}

/// Length of the leading run of equal renderings.
pub open spec fn run_len(parts: Seq<Seq<char>>) -> int
    decreases parts.len(),
{
    if parts.len() <= 1 {
        parts.len() as int
    } else if parts[1] == parts[0] {
        1 + run_len(parts.drop_first())
    } else {
        1
    }
}

/// The leading run is non-empty and no longer than the whole.
pub proof fn lemma_run_len(parts: Seq<Seq<char>>)
    requires
        parts.len() > 0,
    ensures
        1 <= run_len(parts) <= parts.len(),
    decreases parts.len(),
{
    if parts.len() > 1 && parts[1] == parts[0] {
        lemma_run_len(parts.drop_first());
    }
}

/// Power-grouped rendering of a list of factor renderings: runs of equal
/// factors collapse to power notation, and groups are joined with dots.
pub open spec fn power_groups(parts: Seq<Seq<char>>) -> Seq<char>
    decreases parts.len(),
    via power_groups_decreases
{
    if parts.len() == 0 {
        seq![]
    } else {
        let n = run_len(parts);
        let piece = if n == 1 {
            parts[0]
        } else {
            parts[0] + seq!['^'] + dec_str(n as nat)
        };
        if n == parts.len() {
            piece
        } else {
            piece + seq!['.'] + power_groups(parts.skip(n))
        }
    }
}

#[via_fn]
proof fn power_groups_decreases(parts: Seq<Seq<char>>) {
    if parts.len() > 0 {
        lemma_run_len(parts);
    }
}

/// Whether a node is an anonymous merge node with no partials: such nodes
/// dissolve into a surrounding merge instead of stacking.
pub open spec fn is_empty_parent(x: Xi) -> bool {
    x.value is None && x.partials@.len() == 0
}

/// The renderings of a list of children, in order.
pub open spec fn rendered(children: Seq<Xi>) -> Seq<Seq<char>>
    decreases children,
{
    Seq::new(
        children.len(),
        |i: int|
            if 0 <= i < children.len() {
                xi_str(children[i])
            } else {
                seq![]
            },
    )
}

/// Rendering of a merge node from its children's renderings: the
/// power-grouped numerator, a slash and denominator where one is present,
/// parenthesised under any applied partials.
pub open spec fn node_render(num: Seq<Seq<char>>, den: Seq<Seq<char>>, ps: Seq<Form>) -> Seq<
    char,
> {
    let core = if den.len() == 0 {
        power_groups(num)
    } else if num.len() == 0 {
        seq!['1', '/'] + power_groups(den)
    } else {
        power_groups(num) + seq!['/'] + power_groups(den)
    };
    if ps.len() == 0 {
        core
    } else {
        partials_str(ps) + seq!['('] + core + seq![')']
    }
}

/// Canonical rendering of a coefficient tree. A leaf renders as its
/// partials, a xi mark and its name; a merge node renders its numerator
/// and denominator children in power-grouped form.
pub open spec fn xi_str(x: Xi) -> Seq<char>
    decreases x,
{
    match x.value {
        Some(v) => partials_str(x.partials@) + seq!['ξ'] + v@,
        None => node_render(rendered(x.child_num@), rendered(x.child_den@), x.partials@),
    }
}



/// A canonical tree: no child is an anonymous merge node, so merging never
/// stacks empty nodes, and the same holds below.
pub open spec fn xi_wf(x: Xi) -> bool
    decreases x,
{
    &&& forall|i: int|
        0 <= i < x.child_num@.len() ==> !is_empty_parent(#[trigger] x.child_num@[i]) && xi_wf(
            x.child_num@[i],
        )
    &&& forall|i: int|
        0 <= i < x.child_den@.len() ==> !is_empty_parent(#[trigger] x.child_den@[i]) && xi_wf(
            x.child_den@[i],
        )
}

/// The renderings a merge gathers into its numerator: children of
/// dissolved empty parents, and the other operands whole.
pub open spec fn merged_num_renderings(s: Seq<Xi>) -> Seq<Seq<char>>
    decreases s.len(),
{
    if s.len() == 0 {
        seq![]
    } else if is_empty_parent(s[0]) {
        rendered(s[0].child_num@) + merged_num_renderings(s.drop_first())
    } else {
        seq![xi_str(s[0])] + merged_num_renderings(s.drop_first())
    }
}

/// The renderings a merge gathers into its denominator: children of
/// dissolved empty parents only.
pub open spec fn merged_den_renderings(s: Seq<Xi>) -> Seq<Seq<char>>
    decreases s.len(),
{
    if s.len() == 0 {
        seq![]
    } else if is_empty_parent(s[0]) {
        rendered(s[0].child_den@) + merged_den_renderings(s.drop_first())
    } else {
        merged_den_renderings(s.drop_first())
    }
}

/// What one operand hands a merge's numerator: its own children when it
/// dissolves, else its whole rendering.
pub open spec fn gather_num(x: Xi) -> Seq<Seq<char>> {
    if is_empty_parent(x) {
        rendered(x.child_num@)
    } else {
        seq![xi_str(x)]
    }
}

/// What one operand hands a merge's denominator: its denominator children
/// when it dissolves, nothing otherwise.
pub open spec fn gather_den(x: Xi) -> Seq<Seq<char>> {
    if is_empty_parent(x) {
        rendered(x.child_den@)
    } else {
        seq![]
    }
}

/// A merge of two operands gathers exactly what each hands it.
pub proof fn lemma_gather_two(a: Xi, b: Xi)
    ensures
        merged_num_renderings(seq![a, b]) == gather_num(a) + gather_num(b),
        merged_den_renderings(seq![a, b]) == gather_den(a) + gather_den(b),
{
    reveal_with_fuel(merged_num_renderings, 3);
    reveal_with_fuel(merged_den_renderings, 3);
    assert(seq![a, b].drop_first() =~= seq![b]);
    assert(seq![b].drop_first() =~= Seq::<Xi>::empty());
    assert(seq![a, b][0] == a && seq![b][0] == b);
    assert(merged_num_renderings(seq![b]) =~= gather_num(b));
    assert(merged_den_renderings(seq![b]) =~= gather_den(b));
    assert(merged_num_renderings(seq![a, b]) =~= gather_num(a) + gather_num(b));
    assert(merged_den_renderings(seq![a, b]) =~= gather_den(a) + gather_den(b));
}

/// The rendering of a coefficient's multiplicative inverse: a named node
/// keeps its rendering, an anonymous merge node swaps its sides.
pub open spec fn inverse_render(x: Xi) -> Seq<char> {
    match x.value {
        Some(_) => xi_str(x),
        None => node_render(rendered(x.child_den@), rendered(x.child_num@), x.partials@),
    }
}

/// What a coefficient's inverse hands a merge's numerator.
pub open spec fn inv_gather_num(x: Xi) -> Seq<Seq<char>> {
    if is_empty_parent(x) {
        rendered(x.child_den@)
    } else {
        seq![inverse_render(x)]
    }
}

/// What a coefficient's inverse hands a merge's denominator.
pub open spec fn inv_gather_den(x: Xi) -> Seq<Seq<char>> {
    if is_empty_parent(x) {
        rendered(x.child_num@)
    } else {
        seq![]
    }
}

/// Insert a rendering into a sorted list of renderings, after any entries
/// at or before it in the canonical order.
pub open spec fn insert_render(x: Seq<char>, t: Seq<Seq<char>>) -> Seq<Seq<char>>
    decreases t.len(),
{
    if t.len() == 0 {
        seq![x]
    } else if render_le(t[0], x) {
        seq![t[0]] + insert_render(x, t.drop_first())
    } else {
        seq![x] + t
    }
}

/// Sort a list of renderings by insertion, left to right, into the
/// canonical order: registry-indexed leaf names first.
pub open spec fn sort_renderings(s: Seq<Seq<char>>) -> Seq<Seq<char>>
    decreases s.len(),
{
    if s.len() == 0 {
        seq![]
    } else {
        insert_render(s.last(), sort_renderings(s.drop_last()))
    }
}

/// Insert a form into a sorted list of forms, after any equal or smaller
/// entries in registry order.
pub open spec fn insert_form(x: Form, t: Seq<Form>) -> Seq<Form>
    decreases t.len(),
{
    if t.len() == 0 {
        seq![x]
    } else if registry_index(t[0]) <= registry_index(x) {
        seq![t[0]] + insert_form(x, t.drop_first())
    } else {
        seq![x] + t
    }
}

/// Sort a list of forms by insertion, left to right, in registry order.
pub open spec fn sort_forms(s: Seq<Form>) -> Seq<Form>
    decreases s.len(),
{
    if s.len() == 0 {
        seq![]
    } else {
        insert_form(s.last(), sort_forms(s.drop_last()))
    }
}

} // verus!

verus! {

/// The common prefix of two strings does not decide their order.
proof fn lemma_lex_skip(a: Seq<char>, b: Seq<char>, k: int)
    requires
        0 <= k <= a.len(),
        k <= b.len(),
        forall|m: int| 0 <= m < k ==> a[m] == b[m],
    ensures
        lex_lt(a, b) == lex_lt(a.skip(k), b.skip(k)),
        (a == b) == (a.skip(k) == b.skip(k)),
    decreases k,
{
    if k > 0 {
        assert(a.drop_first() =~= a.skip(1));
        assert(b.drop_first() =~= b.skip(1));
        assert(forall|m: int| 0 <= m < k - 1 ==> #[trigger] a.skip(1)[m] == b.skip(1)[m]) by {
            assert(forall|m: int|
                0 <= m < k - 1 ==> #[trigger] a.skip(1)[m] == a[m + 1] && b.skip(1)[m] == b[m
                    + 1]);
        }
        lemma_lex_skip(a.skip(1), b.skip(1), k - 1);
        assert(a.skip(1).skip(k - 1) =~= a.skip(k));
        assert(b.skip(1).skip(k - 1) =~= b.skip(k));
        assert(a[0] == b[0]);
        assert(lex_lt(a, b) == lex_lt(a.skip(1), b.skip(1)));
        if a.skip(1) == b.skip(1) {
            assert(a =~= b) by {
                assert(a.len() == b.len());
                assert(forall|m: int|
                    1 <= m < a.len() ==> #[trigger] a[m] == a.skip(1)[m - 1] && b[m] == b.skip(
                        1,
                    )[m - 1]);
            }
        }
        if a == b {
            assert(a.skip(1) =~= b.skip(1));
        }
    } else {
        assert(a.skip(0) =~= a);
        assert(b.skip(0) =~= b);
    }
}

/// Whether `a` stands at or before `b` in lexicographic order.
pub(crate) fn str_lex_le(a: &str, b: &str) -> (r: bool)
    ensures
        r == lex_le(a@, b@),
{
    let la = a.unicode_len();
    let lb = b.unicode_len();
    let min = if la < lb {
        la
    } else {
        lb
    };
    let mut i: usize = 0;
    while i < min && a.get_char(i) == b.get_char(i)
        invariant
            min <= la && min <= lb,
            la == a@.len() && lb == b@.len(),
            min == if la < lb {
                la
            } else {
                lb
            },
            i <= min,
            forall|m: int| 0 <= m < i ==> a@[m] == b@[m],
        decreases min - i,
    {
        i = i + 1;
    }
    proof {
        lemma_lex_skip(a@, b@, i as int);
    }
    if i == la {
        // a is exhausted: a prefix of b, or equal to it.
        proof {
            if a@.skip(i as int).len() == 0 && b@.skip(i as int).len() == 0 {
                assert(a@.skip(i as int) =~= b@.skip(i as int));
            }
        }
        true
    } else if i == lb {
        proof {
            assert(a@.skip(i as int).len() > 0);
            assert(b@.skip(i as int).len() == 0);
        }
        false
    } else {
        let ca = a.get_char(i);
        let cb = b.get_char(i);
        proof {
            assert(a@.skip(i as int)[0] == a@[i as int]);
            assert(b@.skip(i as int)[0] == b@[i as int]);
            if ca as u32 == cb as u32 {
                assert(ca == cb);
            }
            if a@.skip(i as int) == b@.skip(i as int) {
                assert(a@.skip(i as int)[0] == b@.skip(i as int)[0]);
            }
        }
        (ca as u32) < (cb as u32)
    }
}

/// A scanned position holding no marker before a marker or the end is the
/// first marker position.
proof fn lemma_marker_scan(r: Seq<char>, p: int)
    requires
        0 <= p <= r.len(),
        forall|m: int| 0 <= m < p ==> !(#[trigger] r[m] == 'ξ' || r[m] == '('),
        p < r.len() ==> (r[p] == 'ξ' || r[p] == '('),
    ensures
        marker_pos(r) == p,
    decreases p,
{
    if p > 0 {
        assert(forall|m: int|
            0 <= m < p - 1 ==> !(#[trigger] r.drop_first()[m] == 'ξ' || r.drop_first()[m] == '('))
            by {
            assert(forall|m: int|
                0 <= m < p - 1 ==> #[trigger] r.drop_first()[m] == r[m + 1]);
        }
        lemma_marker_scan(r.drop_first(), p - 1);
    }
}

/// Position of the first structural marker of `s`, or its length when it
/// has none.
fn marker_pos_of(s: &str) -> (p: usize)
    ensures
        p as int == marker_pos(s@),
        p <= s@.len(),
{
    let len = s.unicode_len();
    let mut p: usize = 0;
    while p < len && !(s.get_char(p) == 'ξ' || s.get_char(p) == '(')
        invariant
            len == s@.len(),
            p <= len,
            forall|m: int| 0 <= m < p ==> !(#[trigger] s@[m] == 'ξ' || s@[m] == '('),
        decreases len - p,
    {
        p = p + 1;
    }
    proof {
        lemma_marker_scan(s@, p as int);
    }
    p
}

/// Whether two strings hold the same text.
fn str_eq(a: &str, b: &str) -> (r: bool)
    ensures
        r == (a@ == b@),
{
    let oa = a.to_owned();
    let ob = b.to_owned();
    oa == ob
}

/// The canonical rank of a leaf name.
fn name_rank_of(n: &str) -> (r: usize)
    ensures
        r as int == name_rank(n@),
{
    if str_eq(n, "p") {
        0
    } else if str_eq(n, "23") {
        1
    } else if str_eq(n, "31") {
        2
    } else if str_eq(n, "12") {
        3
    } else if str_eq(n, "0") {
        4
    } else if str_eq(n, "023") {
        5
    } else if str_eq(n, "031") {
        6
    } else if str_eq(n, "012") {
        7
    } else if str_eq(n, "123") {
        8
    } else if str_eq(n, "1") {
        9
    } else if str_eq(n, "2") {
        10
    } else if str_eq(n, "3") {
        11
    } else if str_eq(n, "0123") {
        12
    } else if str_eq(n, "01") {
        13
    } else if str_eq(n, "02") {
        14
    } else if str_eq(n, "03") {
        15
    } else {
        16
    }
}

/// The leaf name of a rendering, where it has one.
fn leaf_name_of(s: &str) -> (r: Option<&str>)
    ensures
        r matches Some(n) ==> leaf_name(s@) == Some(n@),
        r is None ==> leaf_name(s@) is None,
{
    let len = s.unicode_len();
    let p = marker_pos_of(s);
    if p < len && s.get_char(p) == 'ξ' {
        Some(s.substring_char(p + 1, len))
    } else {
        None
    }
}

/// Whether `a` stands at or before `b` in the canonical order of child
/// renderings.
pub(crate) fn str_render_le(a: &str, b: &str) -> (r: bool)
    ensures
        r == render_le(a@, b@),
{
    match (leaf_name_of(a), leaf_name_of(b)) {
        (Some(na), Some(nb)) => {
            let ra = name_rank_of(na);
            let rb = name_rank_of(nb);
            if ra != rb {
                ra < rb
            } else if !str_eq(na, nb) {
                str_lex_le(na, nb)
            } else {
                str_lex_le(a, b)
            }
        },
        (Some(_), None) => true,
        (None, Some(_)) => false,
        (None, None) => str_lex_le(a, b),
    }
}

/// Decimal rendering of a number.
fn dec_string(n: usize) -> (r: String)
    ensures
        r@ == dec_str(n as nat),
    decreases n,
{
    proof {
        reveal_strlit("0");
        reveal_strlit("1");
        reveal_strlit("2");
        reveal_strlit("3");
        reveal_strlit("4");
        reveal_strlit("5");
        reveal_strlit("6");
        reveal_strlit("7");
        reveal_strlit("8");
        reveal_strlit("9");
    }
    let digit = match n % 10 {
        0 => "0",
        1 => "1",
        2 => "2",
        3 => "3",
        4 => "4",
        5 => "5",
        6 => "6",
        7 => "7",
        8 => "8",
        _ => "9",
    };
    proof {
        assert(digit@ =~= seq![digit_char((n % 10) as int)]);
    }
    if n < 10 {
        let r = String::from_str(digit);
        proof {
            assert(r@ =~= dec_str(n as nat));
        }
        r
    } else {
        let mut r = dec_string(n / 10);
        r.append(digit);
        proof {
            assert(r@ =~= dec_str(n as nat));
        }
        r
    }
}

/// Rendering of a list of applied partial derivatives.
fn partials_string(ps: &Vec<Form>) -> (r: String)
    ensures
        r@ == partials_str(ps@),
{
    proof {
        reveal_strlit("");
        reveal_strlit("∂");
    }
    let mut r = String::from_str("");
    proof {
        assert(r@ =~= partials_str(ps@.take(0)));
    }
    let mut k: usize = 0;
    while k < ps.len()
        invariant
            k <= ps@.len(),
            r@ == partials_str(ps@.take(k as int)),
        decreases ps@.len() - k,
    {
        proof {
            reveal_strlit("∂");
            assert(ps@.take(k + 1).drop_last() =~= ps@.take(k as int));
        }
        r.append("∂");
        let fs = ps[k].as_string();
        r.append(fs.as_str());
        k = k + 1;
    }
    proof {
        assert(ps@.take(ps@.len() as int) =~= ps@);
    }
    r
}

/// The views of a list of rendered strings.
pub open spec fn str_views(s: Seq<String>) -> Seq<Seq<char>> {
    Seq::new(s.len(), |i: int| s[i]@)
}

/// A scanned run of equal renderings is the leading run.
proof fn lemma_run_scan(parts: Seq<Seq<char>>, n: int)
    requires
        parts.len() > 0,
        1 <= n <= parts.len(),
        forall|m: int| 0 <= m < n ==> #[trigger] parts[m] == parts[0],
        n < parts.len() ==> parts[n as int] != parts[0],
    ensures
        run_len(parts) == n,
    decreases n,
{
    if n == 1 {
        if parts.len() > 1 {
            assert(parts[1] != parts[0]);
        }
    } else {
        assert(parts[1] == parts[0]);
        assert(forall|m: int|
            0 <= m < n - 1 ==> parts.drop_first()[m] == #[trigger] parts[m + 1]);
        lemma_run_scan(parts.drop_first(), n - 1);
    }
}

/// Power-grouped rendering of the tail of a list of factor renderings,
/// from `start` on.
fn power_grouped_from(parts: &Vec<String>, start: usize) -> (r: String)
    requires
        start < parts@.len(),
    ensures
        r@ == power_groups(str_views(parts@).skip(start as int)),
    decreases parts@.len() - start,
{
    let ghost tail = str_views(parts@).skip(start as int);
    let len = parts.len();
    let mut n: usize = 1;
    while n < len - start && parts[start + n] == parts[start]
        invariant
            start < parts@.len(),
            len == parts@.len(),
            1 <= n <= parts@.len() - start,
            tail == str_views(parts@).skip(start as int),
            forall|m: int| 0 <= m < n ==> #[trigger] tail[m] == tail[0],
        decreases parts@.len() - start - n,
    {
        proof {
            assert(tail[n as int] == parts@[start + n]@);
            assert(tail[0] == parts@[start as int]@);
        }
        n = n + 1;
    }
    proof {
        if n < parts@.len() - start {
            assert(tail[n as int] == parts@[start + n]@);
            assert(tail[0] == parts@[start as int]@);
        }
        lemma_run_scan(tail, n as int);
    }
    let mut piece = parts[start].clone();
    proof {
        reveal_strlit("^");
        reveal_strlit(".");
    }
    if n > 1 {
        piece.append("^");
        let ds = dec_string(n);
        piece.append(ds.as_str());
    }
    if start + n == parts.len() {
        proof {
            assert(piece@ =~= power_groups(tail));
        }
        piece
    } else {
        let rest = power_grouped_from(parts, start + n);
        piece.append(".");
        piece.append(rest.as_str());
        proof {
            assert(str_views(parts@).skip(start + n) =~= tail.skip(n as int));
            assert(piece@ =~= power_groups(tail));
        }
        piece
    }
}

/// Power-grouped rendering of a list of factor renderings.
fn power_grouped(parts: &Vec<String>) -> (r: String)
    ensures
        r@ == power_groups(str_views(parts@)),
{
    if parts.len() == 0 {
        proof {
            reveal_strlit("");
        }
        let r = String::from_str("");
        proof {
            assert(str_views(parts@).len() == 0);
            assert(r@ =~= power_groups(str_views(parts@)));
        }
        r
    } else {
        let r = power_grouped_from(parts, 0);
        proof {
            assert(str_views(parts@).skip(0) =~= str_views(parts@));
        }
        r
    }
}

} // verus!

verus! {

/// Insert a form into a sorted vector position-wise: scanning past smaller
/// or equal entries lands on the insertion-sort position.
proof fn lemma_insert_form_position(t: Seq<Form>, x: Form, p: int)
    requires
        0 <= p <= t.len(),
        forall|m: int| 0 <= m < p ==> registry_index(#[trigger] t[m]) <= registry_index(x),
        p < t.len() ==> registry_index(t[p]) > registry_index(x),
    ensures
        insert_form(x, t) == t.take(p) + seq![x] + t.skip(p),
    decreases p,
{
    if p == 0 {
        if t.len() > 0 {
            assert(insert_form(x, t) == seq![x] + t);
        }
        assert(insert_form(x, t) =~= t.take(0) + seq![x] + t.skip(0));
    } else {
        assert(registry_index(t[0]) <= registry_index(x));
        assert(forall|m: int|
            0 <= m < p - 1 ==> registry_index(#[trigger] t.drop_first()[m]) <= registry_index(
                x,
            )) by {
            assert(forall|m: int|
                0 <= m < p - 1 ==> #[trigger] t.drop_first()[m] == t[m + 1]);
        }
        lemma_insert_form_position(t.drop_first(), x, p - 1);
        assert(insert_form(x, t) =~= t.take(p) + seq![x] + t.skip(p)) by {
            assert(t.drop_first().take(p - 1) =~= t.take(p).drop_first());
            assert(t.drop_first().skip(p - 1) =~= t.skip(p));
        }
    }
}

/// Insert a rendering into a sorted vector position-wise: scanning past
/// smaller or equal entries lands on the insertion-sort position.
proof fn lemma_insert_render_position(t: Seq<Seq<char>>, x: Seq<char>, p: int)
    requires
        0 <= p <= t.len(),
        forall|m: int| 0 <= m < p ==> render_le(#[trigger] t[m], x),
        p < t.len() ==> !render_le(t[p], x),
    ensures
        insert_render(x, t) == t.take(p) + seq![x] + t.skip(p),
    decreases p,
{
    if p == 0 {
        if t.len() > 0 {
            assert(insert_render(x, t) == seq![x] + t);
        }
        assert(insert_render(x, t) =~= t.take(0) + seq![x] + t.skip(0));
    } else {
        assert(render_le(t[0], x));
        assert(forall|m: int| 0 <= m < p - 1 ==> render_le(#[trigger] t.drop_first()[m], x)) by {
            assert(forall|m: int|
                0 <= m < p - 1 ==> #[trigger] t.drop_first()[m] == t[m + 1]);
        }
        lemma_insert_render_position(t.drop_first(), x, p - 1);
        assert(insert_render(x, t) =~= t.take(p) + seq![x] + t.skip(p)) by {
            assert(t.drop_first().take(p - 1) =~= t.take(p).drop_first());
            assert(t.drop_first().skip(p - 1) =~= t.skip(p));
        }
    }
}

/// Sort a vector of forms in registry order by insertion.
fn sort_forms_vec(v: &Vec<Form>) -> (r: Vec<Form>)
    ensures
        r@ == sort_forms(v@),
{
    let mut out: Vec<Form> = Vec::new();
    proof {
        assert(v@.take(0) =~= Seq::<Form>::empty());
    }
    let mut k: usize = 0;
    while k < v.len()
        invariant
            k <= v@.len(),
            out@ == sort_forms(v@.take(k as int)),
        decreases v@.len() - k,
    {
        let x = v[k];
        let rx = crate::registry::registry_index_of(&x);
        let mut p: usize = 0;
        while p < out.len() && crate::registry::registry_index_of(&out[p]) <= rx
            invariant
                p <= out@.len(),
                rx as int == registry_index(x),
                forall|m: int|
                    0 <= m < p ==> registry_index(#[trigger] out@[m]) <= registry_index(x),
            decreases out@.len() - p,
        {
            p = p + 1;
        }
        proof {
            lemma_insert_form_position(out@, x, p as int);
        }
        let ghost pre = out@;
        out.insert(p, x);
        proof {
            assert(out@ =~= pre.take(p as int) + seq![x] + pre.skip(p as int));
            assert(v@.take(k + 1).drop_last() =~= v@.take(k as int));
            assert(v@.take(k + 1).last() == v@[k as int]);
        }
        k = k + 1;
    }
    proof {
        assert(v@.take(v@.len() as int) =~= v@);
    }
    out
}

impl Xi {
    /// Construct a new symbolic leaf coefficient from a name.
    pub fn new(value: &str) -> (r: Xi)
        ensures
            r.value matches Some(v) && v@ == value@,
            r.partials@.len() == 0,
            r.child_num@.len() == 0,
            r.child_den@.len() == 0,
            xi_str(r) == seq!['ξ'] + value@,
            xi_wf(r),
            !is_empty_parent(r),
    {
        let r = Xi {
            value: Some(value.to_owned()),
            partials: Vec::new(),
            child_num: Vec::new(),
            child_den: Vec::new(),
        };
        proof {
            assert(xi_str(r) =~= seq!['ξ'] + value@);
        }
        r
    }

    /// The anonymous empty coefficient: a merge node with no children.
    pub fn empty() -> (r: Xi)
        ensures
            r.value is None,
            r.partials@.len() == 0,
            r.child_num@.len() == 0,
            r.child_den@.len() == 0,
            is_empty_parent(r),
            xi_wf(r),
    {
        Xi { value: None, partials: Vec::new(), child_num: Vec::new(), child_den: Vec::new() }
    }

    /// Whether this coefficient is the empty one: an anonymous node with no
    /// partials and no children at all.
    pub fn is_empty(&self) -> (r: bool)
        ensures
            r == (is_empty_parent(*self) && self.child_num@.len() == 0 && self.child_den@.len()
                == 0),
    {
        self.value.is_none() && self.partials.len() == 0 && self.child_num.len() == 0
            && self.child_den.len() == 0
    }

    /// A deep copy of this coefficient, rendering for rendering.
    pub fn duplicate(&self) -> (r: Xi)
        ensures
            xi_str(r) == xi_str(*self),
            is_empty_parent(r) == is_empty_parent(*self),
            r.value is Some <==> self.value is Some,
            self.value matches Some(v) ==> r.value matches Some(rv) && rv@ == v@,
            r.partials@ == self.partials@,
            rendered(r.child_num@) == rendered(self.child_num@),
            rendered(r.child_den@) == rendered(self.child_den@),
            xi_wf(*self) ==> xi_wf(r),
        decreases *self,
    {
        let value = match &self.value {
            Some(v) => Some(v.clone()),
            None => None,
        };
        let mut child_num: Vec<Xi> = Vec::new();
        let mut k: usize = 0;
        while k < self.child_num.len()
            invariant
                k <= self.child_num@.len(),
                child_num@.len() == k,
                forall|m: int|
                    0 <= m < k ==> xi_str(#[trigger] child_num@[m]) == xi_str(self.child_num@[m])
                        && is_empty_parent(child_num@[m]) == is_empty_parent(self.child_num@[m])
                        && (xi_wf(self.child_num@[m]) ==> xi_wf(child_num@[m])),
            decreases self.child_num@.len() - k,
        {
            child_num.push(self.child_num[k].duplicate());
            k = k + 1;
        }
        let mut child_den: Vec<Xi> = Vec::new();
        let mut k2: usize = 0;
        while k2 < self.child_den.len()
            invariant
                k2 <= self.child_den@.len(),
                child_den@.len() == k2,
                forall|m: int|
                    0 <= m < k2 ==> xi_str(#[trigger] child_den@[m]) == xi_str(self.child_den@[m])
                        && is_empty_parent(child_den@[m]) == is_empty_parent(self.child_den@[m])
                        && (xi_wf(self.child_den@[m]) ==> xi_wf(child_den@[m])),
            decreases self.child_den@.len() - k2,
        {
            child_den.push(self.child_den[k2].duplicate());
            k2 = k2 + 1;
        }
        let r = Xi { value, partials: self.partials.clone(), child_num, child_den };
        proof {
            assert(r.partials@ =~= self.partials@);
            assert(rendered(r.child_num@) =~= rendered(self.child_num@));
            assert(rendered(r.child_den@) =~= rendered(self.child_den@));
            if self.value is None {
                assert(xi_str(r) == xi_str(*self));
            }
        }
        r
    }

    /// The multiplicative inverse of this coefficient: the numerator and
    /// denominator children swap.
    pub fn inverse(&self) -> (r: Xi)
        ensures
            r.value is Some <==> self.value is Some,
            self.value matches Some(v) ==> r.value matches Some(rv) && rv@ == v@,
            is_empty_parent(r) == is_empty_parent(*self),
            r.partials@ == self.partials@,
            rendered(r.child_num@) == rendered(self.child_den@),
            rendered(r.child_den@) == rendered(self.child_num@),
            xi_wf(*self) ==> xi_wf(r),
            xi_str(r) == inverse_render(*self),
    {
        let d = self.duplicate();
        let r = Xi {
            value: d.value,
            partials: d.partials,
            child_num: d.child_den,
            child_den: d.child_num,
        };
        proof {
            if self.value is Some {
                assert(xi_str(r) == xi_str(d));
            } else {
                assert(xi_str(r) == node_render(
                    rendered(self.child_den@),
                    rendered(self.child_num@),
                    self.partials@,
                ));
            }
        }
        r
    }

    /// Append one partial-derivative form and keep the partials sorted in
    /// registry order.
    pub fn add_partial(&mut self, wrt: &Form)
        ensures
            final(self).value == old(self).value,
            final(self).child_num == old(self).child_num,
            final(self).child_den == old(self).child_den,
            final(self).partials@ == sort_forms(old(self).partials@.push(*wrt)),
    {
        let mut ps = self.partials.clone();
        proof {
            assert(ps@ =~= self.partials@);
        }
        ps.push(*wrt);
        let sorted = sort_forms_vec(&ps);
        proof {
            assert(ps@ =~= old(self).partials@.push(*wrt));
        }
        self.partials = sorted;
    }

    /// Replace the set of partial derivatives, sorted in registry order.
    pub fn set_partials(&mut self, partials: Vec<Form>)
        ensures
            final(self).value == old(self).value,
            final(self).child_num == old(self).child_num,
            final(self).child_den == old(self).child_den,
            final(self).partials@ == sort_forms(partials@),
    {
        let sorted = sort_forms_vec(&partials);
        self.partials = sorted;
    }

    /// Canonical text of this coefficient: partials and name for a leaf,
    /// the power-grouped children of a merge node joined with dots, a
    /// slash before any denominator.
    pub fn dotted_string(&self) -> (r: String)
        ensures
            r@ == xi_str(*self),
        decreases *self,
    {
        proof {
            reveal_strlit("ξ");
            reveal_strlit("1/");
            reveal_strlit("/");
            reveal_strlit("(");
            reveal_strlit(")");
        }
        match &self.value {
            Some(v) => {
                let mut out = partials_string(&self.partials);
                out.append("ξ");
                out.append(v.as_str());
                proof {
                    assert(out@ =~= xi_str(*self));
                }
                out
            },
            None => {
                let mut nums: Vec<String> = Vec::new();
                let mut k: usize = 0;
                while k < self.child_num.len()
                    invariant
                        k <= self.child_num@.len(),
                        nums@.len() == k,
                        forall|m: int|
                            0 <= m < k ==> #[trigger] nums@[m]@ == xi_str(self.child_num@[m]),
                    decreases self.child_num@.len() - k,
                {
                    nums.push(self.child_num[k].dotted_string());
                    k = k + 1;
                }
                let mut dens: Vec<String> = Vec::new();
                let mut k2: usize = 0;
                while k2 < self.child_den.len()
                    invariant
                        k2 <= self.child_den@.len(),
                        dens@.len() == k2,
                        forall|m: int|
                            0 <= m < k2 ==> #[trigger] dens@[m]@ == xi_str(self.child_den@[m]),
                    decreases self.child_den@.len() - k2,
                {
                    dens.push(self.child_den[k2].dotted_string());
                    k2 = k2 + 1;
                }
                proof {
                    assert(str_views(nums@) =~= rendered(self.child_num@));
                    assert(str_views(dens@) =~= rendered(self.child_den@));
                }
                let mut core: String;
                if dens.len() == 0 {
                    core = power_grouped(&nums);
                } else if nums.len() == 0 {
                    core = String::from_str("1/");
                    let pd = power_grouped(&dens);
                    core.append(pd.as_str());
                } else {
                    core = power_grouped(&nums);
                    core.append("/");
                    let pd = power_grouped(&dens);
                    core.append(pd.as_str());
                }
                if self.partials.len() == 0 {
                    proof {
                        assert(core@ =~= xi_str(*self));
                    }
                    core
                } else {
                    let mut out = partials_string(&self.partials);
                    out.append("(");
                    out.append(core.as_str());
                    out.append(")");
                    proof {
                        assert(out@ =~= xi_str(*self));
                    }
                    out
                }
            },
        }
    }
}

} // verus!

verus! {

/// Sort coefficients by their canonical rendering, by insertion; the
/// elements keep whatever canonicality they had.
fn sort_xis(v: Vec<Xi>) -> (r: Vec<Xi>)
    ensures
        rendered(r@) == sort_renderings(rendered(v@)),
        (forall|i: int|
            0 <= i < v@.len() ==> !is_empty_parent(#[trigger] v@[i]) && xi_wf(v@[i])) ==> (forall|
            i: int,
        |
            0 <= i < r@.len() ==> !is_empty_parent(#[trigger] r@[i]) && xi_wf(r@[i])),
{
    let ghost orig = v@;
    let mut rest = v;
    let total = rest.len();
    let mut out: Vec<Xi> = Vec::new();
    proof {
        assert(rendered(orig).take(0) =~= Seq::<Seq<char>>::empty());
        assert(rendered(out@) =~= sort_renderings(rendered(orig).take(0)));
    }
    let mut k: usize = 0;
    while rest.len() > 0
        invariant
            total == orig.len(),
            k + rest@.len() == orig.len(),
            forall|m: int| 0 <= m < rest@.len() ==> #[trigger] rest@[m] == orig[k + m],
            rendered(out@) == sort_renderings(rendered(orig).take(k as int)),
            (forall|i: int|
                0 <= i < orig.len() ==> !is_empty_parent(#[trigger] orig[i]) && xi_wf(orig[i]))
                ==> (forall|i: int|
                0 <= i < out@.len() ==> !is_empty_parent(#[trigger] out@[i]) && xi_wf(out@[i])),
        decreases rest@.len(),
    {
        let ghost rest_pre = rest@;
        let x = rest.remove(0);
        proof {
            assert(x == orig[k as int]);
            assert(forall|m: int|
                0 <= m < rest@.len() ==> #[trigger] rest@[m] == rest_pre[m + 1]);
        }
        let xs = x.dotted_string();
        let mut p: usize = 0;
        while p < out.len() && str_render_le(out[p].dotted_string().as_str(), xs.as_str())
            invariant
                p <= out@.len(),
                xs@ == xi_str(x),
                forall|m: int| 0 <= m < p ==> render_le(xi_str(#[trigger] out@[m]), xi_str(x)),
            decreases out@.len() - p,
        {
            p = p + 1;
        }
        proof {
            assert(forall|m: int|
                0 <= m < p ==> render_le(#[trigger] rendered(out@)[m], xi_str(x)));
            if p < out@.len() {
                assert(rendered(out@)[p as int] == xi_str(out@[p as int]));
            }
            lemma_insert_render_position(rendered(out@), xi_str(x), p as int);
        }
        let ghost out_pre = out@;
        out.insert(p, x);
        proof {
            assert(rendered(out@) =~= rendered(out_pre).take(p as int) + seq![xi_str(x)]
                + rendered(out_pre).skip(p as int));
            assert(rendered(orig).take(k + 1).drop_last() =~= rendered(orig).take(k as int));
            assert(rendered(orig).take(k + 1).last() == xi_str(orig[k as int]));
        }
        k = k + 1;
    }
    proof {
        assert(rendered(orig).take(orig.len() as int) =~= rendered(orig));
    }
    out
}

impl Xi {
    /// Construct a new coefficient as the product of existing ones.
    /// Anonymous merge nodes dissolve: their children are pulled up, so
    /// empty nodes never stack. The gathered children are sorted into the
    /// canonical rendering order.
    pub fn merge(xis: Vec<Xi>) -> (r: Xi)
        ensures
            r.value is None,
            r.partials@.len() == 0,
            rendered(r.child_num@) == sort_renderings(merged_num_renderings(xis@)),
            rendered(r.child_den@) == sort_renderings(merged_den_renderings(xis@)),
            (forall|i: int| 0 <= i < xis@.len() ==> xi_wf(#[trigger] xis@[i])) ==> xi_wf(r),
            is_empty_parent(r),
    {
        let ghost orig = xis@;
        let mut rest = xis;
        let mut num: Vec<Xi> = Vec::new();
        let mut den: Vec<Xi> = Vec::new();
        while rest.len() > 0
            invariant
                merged_num_renderings(orig) == rendered(num@) + merged_num_renderings(rest@),
                merged_den_renderings(orig) == rendered(den@) + merged_den_renderings(rest@),
                (forall|i: int| 0 <= i < orig.len() ==> xi_wf(#[trigger] orig[i])) ==> ((forall|
                    i: int,
                |
                    0 <= i < num@.len() ==> !is_empty_parent(#[trigger] num@[i]) && xi_wf(
                        num@[i],
                    )) && (forall|i: int|
                    0 <= i < den@.len() ==> !is_empty_parent(#[trigger] den@[i]) && xi_wf(
                        den@[i],
                    )) && (forall|i: int| 0 <= i < rest@.len() ==> xi_wf(#[trigger] rest@[i]))),
            decreases rest@.len(),
        {
            let ghost rest_pre = rest@;
            let ghost num_pre = num@;
            let ghost den_pre = den@;
            let mut x = rest.remove(0);
            proof {
                assert(x == rest_pre[0]);
                assert(rest@ =~= rest_pre.drop_first());
            }
            if x.value.is_none() && x.partials.len() == 0 {
                let mut cn = x.child_num;
                let mut cd = x.child_den;
                num.append(&mut cn);
                den.append(&mut cd);
                proof {
                    assert(rendered(num@) =~= rendered(num_pre) + rendered(rest_pre[0].child_num@));
                    assert(rendered(den@) =~= rendered(den_pre) + rendered(rest_pre[0].child_den@));
                    assert(rendered(num@) + merged_num_renderings(rest@) =~= merged_num_renderings(
                        orig,
                    ));
                    assert(rendered(den@) + merged_den_renderings(rest@) =~= merged_den_renderings(
                        orig,
                    ));
                }
            } else {
                num.push(x);
                proof {
                    assert(rendered(num@) =~= rendered(num_pre) + seq![xi_str(rest_pre[0])]);
                    assert(rendered(num@) + merged_num_renderings(rest@) =~= merged_num_renderings(
                        orig,
                    ));
                }
            }
        }
        proof {
            assert(rendered(num@) + merged_num_renderings(rest@) =~= rendered(num@));
            assert(rendered(den@) + merged_den_renderings(rest@) =~= rendered(den@));
        }
        let sorted_num = sort_xis(num);
        let sorted_den = sort_xis(den);
        Xi { value: None, partials: Vec::new(), child_num: sorted_num, child_den: sorted_den }
    }
}

} // verus!

verus! {

/// A merge over operands that are not anonymous merge nodes gathers
/// exactly their own renderings into the numerator and nothing into the
/// denominator.
pub proof fn lemma_merged_plain(s: Seq<Xi>)
    requires
        forall|i: int| 0 <= i < s.len() ==> !is_empty_parent(#[trigger] s[i]),
    ensures
        merged_num_renderings(s) == rendered(s),
        merged_den_renderings(s) == Seq::<Seq<char>>::empty(),
    decreases s.len(),
{
    if s.len() == 0 {
        assert(merged_num_renderings(s) =~= rendered(s));
    } else {
        assert(forall|i: int| 0 <= i < s.len() - 1 ==> #[trigger] s.drop_first()[i] == s[i + 1]);
        lemma_merged_plain(s.drop_first());
        assert(merged_num_renderings(s) =~= rendered(s));
        assert(merged_den_renderings(s) =~= Seq::<Seq<char>>::empty());
    }
}

/// What a merge of two operands gathers depends only on their renderings,
/// dissolution status and child renderings, so duplicates gather the same.
pub proof fn lemma_merged_pair(a: Xi, b: Xi, da: Xi, db: Xi)
    requires
        xi_str(da) == xi_str(a),
        xi_str(db) == xi_str(b),
        is_empty_parent(da) == is_empty_parent(a),
        is_empty_parent(db) == is_empty_parent(b),
        rendered(da.child_num@) == rendered(a.child_num@),
        rendered(db.child_num@) == rendered(b.child_num@),
        rendered(da.child_den@) == rendered(a.child_den@),
        rendered(db.child_den@) == rendered(b.child_den@),
    ensures
        merged_num_renderings(seq![da, db]) == merged_num_renderings(seq![a, b]),
        merged_den_renderings(seq![da, db]) == merged_den_renderings(seq![a, b]),
{
    assert(seq![da, db].drop_first() =~= seq![db]);
    assert(seq![a, b].drop_first() =~= seq![b]);
    assert(seq![db].drop_first() =~= Seq::<Xi>::empty());
    assert(seq![b].drop_first() =~= Seq::<Xi>::empty());
    assert(merged_num_renderings(seq![db]) =~= merged_num_renderings(seq![b]));
    assert(merged_den_renderings(seq![db]) =~= merged_den_renderings(seq![b]));
    assert(merged_num_renderings(seq![da, db]) =~= merged_num_renderings(seq![a, b]));
    assert(merged_den_renderings(seq![da, db]) =~= merged_den_renderings(seq![a, b]));
}

} // verus!

verus! {

/// The lexicographic order never holds reflexively.
pub proof fn lemma_lex_irrefl(a: Seq<char>)
    ensures
        !lex_lt(a, a),
    decreases a.len(),
{
    if a.len() > 0 {
        lemma_lex_irrefl(a.drop_first());
    }
}

/// Two distinct sequences compare one way or the other.
pub proof fn lemma_lex_connex(a: Seq<char>, b: Seq<char>)
    ensures
        a != b ==> lex_lt(a, b) || lex_lt(b, a),
    decreases a.len() + b.len(),
{
    if a.len() > 0 && b.len() > 0 {
        lemma_lex_connex(a.drop_first(), b.drop_first());
        if a[0] as u32 == b[0] as u32 {
            vstd::utf8::char_u32_cast(a[0], a[0] as u32);
            vstd::utf8::char_u32_cast(b[0], b[0] as u32);
            assert(a[0] == b[0]);
            if a.drop_first() == b.drop_first() {
                assert(a =~= seq![a[0]] + a.drop_first());
                assert(b =~= seq![b[0]] + b.drop_first());
                assert(a == b);
            }
        }
    } else if a.len() == 0 && b.len() == 0 {
        assert(a =~= b);
    }
}

/// The lexicographic order is transitive.
pub proof fn lemma_lex_trans(a: Seq<char>, b: Seq<char>, c: Seq<char>)
    ensures
        lex_lt(a, b) && lex_lt(b, c) ==> lex_lt(a, c),
    decreases a.len() + b.len() + c.len(),
{
    if lex_lt(a, b) && lex_lt(b, c) {
        if a.len() > 0 {
            lemma_lex_trans(a.drop_first(), b.drop_first(), c.drop_first());
        }
    }
}

/// The canonical rendering order is total, antisymmetric and transitive.
pub proof fn lemma_render_le_order(a: Seq<char>, b: Seq<char>, c: Seq<char>)
    ensures
        render_le(a, b) || render_le(b, a),
        render_le(a, b) && render_le(b, a) ==> a == b,
        render_le(a, b) && render_le(b, c) ==> render_le(a, c),
{
    lemma_lex_connex(a, b);
    lemma_lex_trans(a, b, c);
    lemma_lex_trans(a, b, a);
    lemma_lex_trans(b, a, b);
    lemma_lex_irrefl(a);
    lemma_lex_irrefl(b);
    lemma_lex_irrefl(c);
    match (leaf_name(a), leaf_name(b), leaf_name(c)) {
        (Some(na), Some(nb), Some(nc)) => {
            lemma_lex_connex(na, nb);
            lemma_lex_trans(na, nb, nc);
            lemma_lex_trans(na, nb, na);
            lemma_lex_trans(nb, na, nb);
            lemma_lex_irrefl(na);
            lemma_lex_irrefl(nb);
            lemma_lex_irrefl(nc);
        },
        (Some(na), Some(nb), None) => {
            lemma_lex_connex(na, nb);
            lemma_lex_trans(na, nb, na);
            lemma_lex_irrefl(na);
            lemma_lex_irrefl(nb);
        },
        _ => {},
    }
}

} // verus!
