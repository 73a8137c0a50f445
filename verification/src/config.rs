//! The constant data that defines the algebra: the allowed forms, the
//! canonical-ordering targets and the metric, as plain values.

use vstd::prelude::*;
use vstd::string::StrSliceExecFns;

use crate::form::form_axes;
use crate::form::Form;
use crate::index::idx_num;
use crate::index::Index;
use crate::registry::allowed_alpha_forms;
use crate::registry::registry;
use crate::sign::Sign;

verus! {

/// Insert an axis into a sorted run, after any equal or smaller entries.
pub open spec fn insert_index(x: Index, t: Seq<Index>) -> Seq<Index>
    decreases t.len(),
{
    if t.len() == 0 {
        seq![x]
    } else if idx_num(t[0]) <= idx_num(x) {
        seq![t[0]] + insert_index(x, t.drop_first())
    } else {
        seq![x] + t
    }
}

/// Sort axes ascending by insertion, left to right.
pub open spec fn sort_indices(s: Seq<Index>) -> Seq<Index>
    decreases s.len(),
{
    if s.len() == 0 {
        seq![]
    } else {
        insert_index(s.last(), sort_indices(s.drop_last()))
    }
}

/// A vector of axes kept in ascending order, used as the lookup key of the
/// canonical-ordering table: two axis sets share a key exactly when they
/// hold the same axes.
#[derive(Debug, Clone)]
pub struct KeyVec(pub Vec<Index>);

/// Inserting an axis lands it after the equal-or-smaller prefix.
proof fn lemma_insert_index_position(t: Seq<Index>, x: Index, p: int)
    requires
        0 <= p <= t.len(),
        forall|m: int| 0 <= m < p ==> idx_num(#[trigger] t[m]) <= idx_num(x),
        p < t.len() ==> idx_num(t[p]) > idx_num(x),
    ensures
        insert_index(x, t) == t.take(p) + seq![x] + t.skip(p),
    decreases p,
{
    if p == 0 {
        if t.len() > 0 {
            assert(insert_index(x, t) == seq![x] + t);
        }
        assert(insert_index(x, t) =~= t.take(0) + seq![x] + t.skip(0));
    } else {
        assert(forall|m: int|
            0 <= m < p - 1 ==> idx_num(#[trigger] t.drop_first()[m]) <= idx_num(x)) by {
            assert(forall|m: int|
                0 <= m < p - 1 ==> #[trigger] t.drop_first()[m] == t[m + 1]);
        }
        lemma_insert_index_position(t.drop_first(), x, p - 1);
        assert(insert_index(x, t) =~= t.take(p) + seq![x] + t.skip(p)) by {
            assert(t.drop_first().take(p - 1) =~= t.take(p).drop_first());
            assert(t.drop_first().skip(p - 1) =~= t.skip(p));
        }
    }
}

impl KeyVec {
    /// Generate a new key from a vector of axes; the axes are sorted
    /// ascending when the key is created.
    pub fn new(v: Vec<Index>) -> (r: KeyVec)
        ensures
            r.0@ == sort_indices(v@),
    {
        let ghost orig = v@;
        let mut rest = v;
        let total = rest.len();
        let mut out: Vec<Index> = Vec::new();
        proof {
            assert(orig.take(0) =~= Seq::<Index>::empty());
        }
        let mut k: usize = 0;
        while rest.len() > 0
            invariant
                total == orig.len(),
                k + rest@.len() == orig.len(),
                forall|m: int| 0 <= m < rest@.len() ==> #[trigger] rest@[m] == orig[k + m],
                out@ == sort_indices(orig.take(k as int)),
            decreases rest@.len(),
        {
            let ghost rest_pre = rest@;
            let x = rest.remove(0);
            proof {
                assert(x == orig[k as int]);
                assert(forall|m: int|
                    0 <= m < rest@.len() ==> #[trigger] rest@[m] == rest_pre[m + 1]);
            }
            let nx = x.num();
            let mut p: usize = 0;
            while p < out.len() && out[p].num() <= nx
                invariant
                    p <= out@.len(),
                    nx as int == idx_num(x),
                    forall|m: int| 0 <= m < p ==> idx_num(#[trigger] out@[m]) <= idx_num(x),
                decreases out@.len() - p,
            {
                p = p + 1;
            }
            proof {
                lemma_insert_index_position(out@, x, p as int);
            }
            let ghost out_pre = out@;
            out.insert(p, x);
            proof {
                assert(out@ =~= out_pre.take(p as int) + seq![x] + out_pre.skip(p as int));
                assert(orig.take(k + 1).drop_last() =~= orig.take(k as int));
                assert(orig.take(k + 1).last() == orig[k as int]);
            }
            k = k + 1;
        }
        proof {
            assert(orig.take(orig.len() as int) =~= orig);
        }
        KeyVec(out)
    }
}

/// The set of all allowed forms of the algebra: the sixteen registry
/// members in their canonical order.
pub fn get_allowed() -> (r: Vec<Form>)
    ensures
        r@ == registry(),
{
    allowed_alpha_forms()
}

/// The canonical-ordering table: for every non-point registry form, the
/// sorted key of its axes paired with the form that carries them in
/// canonical order.
pub fn get_targets(allowed: &Vec<Form>) -> (r: Vec<(KeyVec, Form)>)
    ensures
        r@.len() == allowed@.len(),
        forall|i: int|
            0 <= i < allowed@.len() ==> (#[trigger] r@[i]).0.0@ == sort_indices(
                form_axes(allowed@[i]),
            ) && r@[i].1 == allowed@[i],
{
    let mut out: Vec<(KeyVec, Form)> = Vec::new();
    let mut k: usize = 0;
    while k < allowed.len()
        invariant
            k <= allowed@.len(),
            out@.len() == k,
            forall|i: int|
                0 <= i < k ==> (#[trigger] out@[i]).0.0@ == sort_indices(form_axes(allowed@[i]))
                    && out@[i].1 == allowed@[i],
        decreases allowed@.len() - k,
    {
        let f = allowed[k];
        out.push((KeyVec::new(f.as_vec()), f));
        k = k + 1;
    }
    out
}

/// The fixed +--- metric as an association list: the sign each axis
/// squares to.
pub fn get_metric() -> (r: Vec<(Index, Sign)>)
    ensures
        r@ == seq![
            (Index::Zero, Sign::Pos),
            (Index::One, Sign::Neg),
            (Index::Two, Sign::Neg),
            (Index::Three, Sign::Neg),
        ],
{
    let mut r: Vec<(Index, Sign)> = Vec::new();
    r.push((Index::Zero, Sign::Pos));
    r.push((Index::One, Sign::Neg));
    r.push((Index::Two, Sign::Neg));
    r.push((Index::Three, Sign::Neg));
    proof {
        assert(r@ =~= seq![
            (Index::Zero, Sign::Pos),
            (Index::One, Sign::Neg),
            (Index::Two, Sign::Neg),
            (Index::Three, Sign::Neg),
        ]);
    }
    r
}

/// Construct a metric from a sign string: four characters, each `+` or
/// `-`, giving the sign each axis squares to.
pub fn metric_from_string(s: &str) -> (r: Result<Vec<(Index, Sign)>, String>)
    ensures
        r matches Ok(m) ==> {
            &&& s@.len() == 4
            &&& m@.len() == 4
            &&& forall|i: int|
                0 <= i < 4 ==> (#[trigger] m@[i]).1 == (if s@[i] == '+' {
                    Sign::Pos
                } else {
                    Sign::Neg
                })
            &&& forall|i: int| 0 <= i < 4 ==> (#[trigger] m@[i]).0 == spec_axis_at(i)
        },
        r is Err <==> !(s@.len() == 4 && forall|i: int|
            0 <= i < 4 ==> #[trigger] s@[i] == '+' || s@[i] == '-'),
{
    if s.unicode_len() != 4 {
        return Err(crate::string_help::err_text("metric must contain 4 values"));
    }
    let mut m: Vec<(Index, Sign)> = Vec::new();
    let mut k: usize = 0;
    while k < 4
        invariant
            s@.len() == 4,
            k <= 4,
            m@.len() == k,
            forall|i: int|
                0 <= i < k ==> (#[trigger] m@[i]).1 == (if s@[i] == '+' {
                    Sign::Pos
                } else {
                    Sign::Neg
                }) && m@[i].0 == spec_axis_at(i),
            forall|i: int| 0 <= i < k ==> #[trigger] s@[i] == '+' || s@[i] == '-',
        decreases 4 - k,
    {
        let c = s.get_char(k);
        let sign = if c == '+' {
            Sign::Pos
        } else if c == '-' {
            Sign::Neg
        } else {
            return Err(crate::string_help::err_text("metric string must only be +/-"));
        };
        let axis = match k {
            0 => Index::Zero,
            1 => Index::One,
            2 => Index::Two,
            _ => Index::Three,
        };
        m.push((axis, sign));
        k = k + 1;
    }
    Ok(m)
}

/// The axis at a metric position.
pub open spec fn spec_axis_at(i: int) -> Index {
    if i == 0 {
        Index::Zero
    } else if i == 1 {
        Index::One
    } else if i == 2 {
        Index::Two
    } else {
        Index::Three
    }
}

/// A configuration to run calculations under: the allowed forms and the
/// metric.
pub struct Config {
    pub allowed: Vec<Form>,
    pub metric: Vec<(Index, Sign)>,
}

impl Config {
    /// Create a new default configuration: the sixteen-member registry
    /// under the +--- metric.
    pub fn new_default() -> (r: Config)
        ensures
            r.allowed@ == registry(),
            r.metric@.len() == 4,
    {
        Config { allowed: get_allowed(), metric: get_metric() }
    }
}

} // verus!

verus! {

/// The shape bucket of one registry entry text: the point mark, an axis
/// count of one to four, or out of range.
pub open spec fn entry_shape(s: Seq<char>) -> int {
    if s == seq!['p'] {
        0
    } else if s.len() == 1 {
        1
    } else if s.len() == 2 {
        2
    } else if s.len() == 3 {
        3
    } else if s.len() == 4 {
        4
    } else {
        5
    }
}

/// How many entries of a run fall in one shape bucket.
pub open spec fn count_shape(s: Seq<Seq<char>>, c: int) -> int
    decreases s.len(),
{
    if s.len() == 0 {
        0
    } else {
        count_shape(s.drop_last(), c) + if entry_shape(s.last()) == c {
            1int
        } else {
            0int
        }
    }
}

/// Whether one entry text parses as a form: the point mark, or one to four
/// axis digits.
pub open spec fn entry_parses(s: Seq<char>) -> bool {
    s == seq!['p'] || (1 <= s.len() <= 4 && forall|k: int|
        0 <= k < s.len() ==> crate::index::idx_of_char(#[trigger] s[k]) is Some)
}

/// The form one valid entry text denotes.
pub open spec fn entry_form(s: Seq<char>) -> Form {
    if s == seq!['p'] {
        Form::Point
    } else {
        crate::form::form_of_axes(crate::form::parsed_axes(s))
    }
}

/// The views of a run of entry texts.
pub open spec fn entry_views(s: Seq<&str>) -> Seq<Seq<char>> {
    Seq::new(s.len(), |k: int| s[k]@)
}

/// Whether a run of entry texts describes a whole algebra: one point, four
/// vectors, six bivectors, four trivectors and one quadrivector, every
/// entry parseable.
pub open spec fn describes_algebra(vs: Seq<Seq<char>>) -> bool {
    &&& forall|k: int| 0 <= k < vs.len() ==> entry_shape(#[trigger] vs[k]) != 5
    &&& count_shape(vs, 0) == 1
    &&& count_shape(vs, 1) == 4
    &&& count_shape(vs, 2) == 6
    &&& count_shape(vs, 3) == 4
    &&& count_shape(vs, 4) == 1
    &&& forall|k: int| 0 <= k < vs.len() ==> entry_parses(#[trigger] vs[k])
}

/// Parse a run of entry texts into the forms of an algebra. It succeeds
/// exactly when the run holds one point, four vectors, six bivectors, four
/// trivectors and one quadrivector, all written with valid axes.
pub fn allowed_from_vec(indices: Vec<&str>) -> (r: Result<Vec<Form>, crate::error::ArError>)
    ensures
        r is Ok <==> describes_algebra(entry_views(indices@)),
        r matches Ok(v) ==> v@.len() == indices@.len() && forall|k: int|
            0 <= k < indices@.len() ==> #[trigger] v@[k] == entry_form(indices@[k]@),
{
    let ghost vs = entry_views(indices@);
    let mut point: usize = 0;
    let mut vectors: usize = 0;
    let mut bivectors: usize = 0;
    let mut trivectors: usize = 0;
    let mut quadrivector: usize = 0;
    let mut k: usize = 0;
    while k < indices.len()
        invariant
            vs == entry_views(indices@),
            k <= indices@.len(),
            point as int == count_shape(vs.take(k as int), 0),
            vectors as int == count_shape(vs.take(k as int), 1),
            bivectors as int == count_shape(vs.take(k as int), 2),
            trivectors as int == count_shape(vs.take(k as int), 3),
            quadrivector as int == count_shape(vs.take(k as int), 4),
            point <= k && vectors <= k && bivectors <= k && trivectors <= k && quadrivector <= k,
            forall|m: int| 0 <= m < k ==> entry_shape(#[trigger] vs[m]) != 5,
        decreases indices@.len() - k,
    {
        proof {
            assert(vs.take(k + 1).drop_last() =~= vs.take(k as int));
            assert(vs.take(k + 1).last() == vs[k as int]);
        }
        let entry = indices[k];
        let len = entry.unicode_len();
        if len == 1 && entry.get_char(0) == 'p' {
            proof {
                assert(entry@ =~= seq!['p']);
            }
            point = point + 1;
        } else if len == 1 {
            proof {
                if entry@ == seq!['p'] {
                    assert(entry@[0] == 'p');
                }
            }
            vectors = vectors + 1;
        } else if len == 2 {
            bivectors = bivectors + 1;
        } else if len == 3 {
            trivectors = trivectors + 1;
        } else if len == 4 {
            quadrivector = quadrivector + 1;
        } else {
            return Err(crate::error::ArError::InvalidConfig(entry.to_owned()));
        }
        k = k + 1;
    }
    proof {
        assert(vs.take(vs.len() as int) =~= vs);
    }
    if !(point == 1 && vectors == 4 && bivectors == 6 && trivectors == 4 && quadrivector == 1) {
        return Err(
            crate::error::ArError::InvalidConfig(
                crate::string_help::err_text("wrong number of elements for an algebra"),
            ),
        );
    }
    let mut out: Vec<Form> = Vec::new();
    let mut j: usize = 0;
    while j < indices.len()
        invariant
            vs == entry_views(indices@),
            j <= indices@.len(),
            out@.len() == j,
            describes_algebra(vs) ==> true,
            forall|m: int| 0 <= m < vs.len() ==> entry_shape(#[trigger] vs[m]) != 5,
            count_shape(vs, 0) == 1 && count_shape(vs, 1) == 4 && count_shape(vs, 2) == 6
                && count_shape(vs, 3) == 4 && count_shape(vs, 4) == 1,
            forall|m: int| 0 <= m < j ==> entry_parses(#[trigger] vs[m]),
            forall|m: int| 0 <= m < j ==> #[trigger] out@[m] == entry_form(indices@[m]@),
        decreases indices@.len() - j,
    {
        match crate::form::form_from_str(indices[j]) {
            Ok(f) => {
                proof {
                    assert(entry_shape(vs[j as int]) != 5);
                    assert(1 <= vs[j as int].len() <= 4 || vs[j as int] == seq!['p']);
                }
                out.push(f);
            },
            Err(e) => {
                proof {
                    assert(entry_shape(vs[j as int]) != 5);
                    assert(!entry_parses(vs[j as int]));
                }
                return Err(e);
            },
        }
        j = j + 1;
    }
    Ok(out)
}

/// The sign an axis squares to under a metric given as an association
/// list: the first matching entry decides.
pub open spec fn metric_lookup(m: Seq<(Index, Sign)>, axis: Index) -> Option<Sign>
    decreases m.len(),
{
    if m.len() == 0 {
        None
    } else if m[0].0 == axis {
        Some(m[0].1)
    } else {
        metric_lookup(m.drop_first(), axis)
    }
}

/// Look up the sign an axis squares to under a metric.
pub fn metric_sign_in(metric: &Vec<(Index, Sign)>, axis: Index) -> (r: Option<Sign>)
    ensures
        r == metric_lookup(metric@, axis),
{
    let mut k: usize = 0;
    proof {
        assert(metric@.skip(0) =~= metric@);
    }
    while k < metric.len()
        invariant
            k <= metric@.len(),
            metric_lookup(metric@, axis) == metric_lookup(metric@.skip(k as int), axis),
        decreases metric@.len() - k,
    {
        proof {
            assert(metric@.skip(k as int)[0] == metric@[k as int]);
            assert(metric@.skip(k as int).drop_first() =~= metric@.skip(k + 1));
        }
        if metric[k].0 == axis {
            return Some(metric[k].1);
        }
        k = k + 1;
    }
    proof {
        assert(metric@.skip(metric@.len() as int) =~= Seq::<(Index, Sign)>::empty());
    }
    None
}

} // verus!
