//! Tests of magnitudes, terms, composite quantities and their operations.

use arthroprod::alpha::Alpha;
use arthroprod::product::ar_product;
use arthroprod::registry::allowed_alpha_forms;
use arthroprod::config::allowed_from_vec;
use arthroprod::config::get_metric;
use arthroprod::config::metric_from_string;
use arthroprod::config::metric_sign_in;
use arthroprod::config::Config;
use arthroprod::config::KeyVec;
use arthroprod::differential::ArDifferential;
use arthroprod::form::form_from_str;
use arthroprod::form::Form;
use arthroprod::index::Index;
use arthroprod::magnitude::Magnitude;
use arthroprod::multivector::MultiVector;
use arthroprod::operations::div;
use arthroprod::operations::DivisionError;
use arthroprod::operations::full;
use arthroprod::operations::mm_bar;
use arthroprod::ratio::Ratio;
use arthroprod::sign::Sign;
use arthroprod::term::Term;

fn vector_term(i: Index) -> Term {
    Term::new(None, Alpha::new(Sign::Pos, Form::Vector(i)).unwrap())
}

fn terms_agree(a: &Term, b: &Term) -> bool {
    a.alpha() == b.alpha() && a.magnitude() == b.magnitude() && a.xi_str() == b.xi_str()
}

fn mvecs_agree(a: &MultiVector, b: &MultiVector) -> bool {
    if a.len() != b.len() {
        return false;
    }
    for k in 0..a.len() {
        if !terms_agree(a.term_at(k), b.term_at(k)) {
            return false;
        }
    }
    true
}

#[test]
fn equality_works() {
    assert_eq!(Magnitude::new(2, 4), Magnitude::new(1, 2));
    assert!(Magnitude::new(4, 2).eq_usize(2));
    assert!(Magnitude::new(15, 3).eq_usize(5));
}

#[test]
fn ratio_equality_works() {
    assert_eq!(Ratio::new(2, 4), Ratio::new(1, 2));
    assert!(Ratio::new(4, 2).eq_int(2));
    assert!(Ratio::new(-15, 3).eq_int(-5));
}

#[test]
fn magnitude_arithmetic_is_exact() {
    let half = Magnitude::new(1, 2);
    let three_quarters = Magnitude::new(3, 4);
    assert_eq!(half.plus(&three_quarters), Magnitude::new(5, 4));
    assert_eq!(three_quarters.minus(&half), Magnitude::new(1, 4));
    assert_eq!(half.times(&three_quarters), Magnitude::new(3, 8));
    assert_eq!(half.divided_by(&three_quarters), Magnitude::new(2, 3));
    assert_eq!(Magnitude::new(9, 3), Magnitude::new(3, 1));
}

#[test]
fn reduction_on_creation_works() {
    let m = Magnitude::new(2, 4);
    assert_eq!(m.numerator, 1);
    assert_eq!(m.denominator, 2);
    let r = Ratio::new(-9, 3);
    assert_eq!(r.numerator, -3);
    assert_eq!(r.denominator, 1);
    let r2 = Ratio::new(12, -15);
    assert_eq!(r2.numerator, -4);
    assert_eq!(r2.denominator, 5);
}

#[test]
fn summation_key_groups_by_form_and_symbol() {
    let a = Alpha::new(Sign::Pos, Form::Vector(Index::One)).unwrap();
    let t1 = Term::new(Some("foo"), a);
    let t2 = Term::new(Some("foo"), a.negated());
    let t3 = Term::new(Some("bar"), a);
    assert!(t1.matches_key(&t2));
    assert!(!t1.matches_key(&t3));
}

#[test]
fn try_add_sums_and_cancels() {
    let a = Alpha::new(Sign::Pos, Form::Vector(Index::One)).unwrap();
    let t = Term::new(Some("foo"), a);
    let sum = t.try_add(&t).unwrap();
    assert_eq!(sum.magnitude(), Magnitude::new(2, 1));
    assert_eq!(sum.sign(), Sign::Pos);
    let neg = t.negated();
    let zero = t.try_add(&neg).unwrap();
    assert!(zero.magnitude().is_zero());
    let other = Term::new(Some("bar"), a);
    assert!(t.try_add(&other).is_none());
}

#[test]
fn full_product_of_two_vectors_simplifies_to_one_bivector() {
    let mut left = MultiVector::new();
    left.push(vector_term(Index::One));
    let mut right = MultiVector::new();
    right.push(vector_term(Index::Two));
    let mut res = full(&left, &right);
    res.simplify();
    assert_eq!(res.len(), 1);
    let t = res.term_at(0);
    assert_eq!(t.form(), Form::Bivector(Index::One, Index::Two));
    assert_eq!(t.sign(), Sign::Pos);
    assert!(t.magnitude().eq_usize(1));
}

#[test]
fn simplify_cancels_a_term_and_its_negation() {
    let a = Alpha::new(Sign::Pos, Form::Bivector(Index::Two, Index::Three)).unwrap();
    let t = Term::new(Some("F"), a);
    let mut m = MultiVector::new();
    m.push(t.duplicate());
    m.push(t.negated());
    m.simplify();
    assert!(m.is_empty());
}

#[test]
fn simplify_is_idempotent() {
    let mut m = MultiVector::new();
    m.push(vector_term(Index::Three));
    m.push(vector_term(Index::One));
    m.push(vector_term(Index::One));
    m.push(Term::new(Some("q"), Alpha::new(Sign::Neg, Form::Point).unwrap()));
    let mut once = m.duplicate();
    once.simplify();
    let mut twice = once.duplicate();
    twice.simplify();
    assert!(mvecs_agree(&once, &twice));
    assert_eq!(once.len(), 3);
}

#[test]
fn dividing_a_single_term_by_itself_gives_the_unit_point() {
    let a = Alpha::new(Sign::Neg, Form::Trivector(Index::Zero, Index::Two, Index::Three))
        .unwrap();
    let mut t = Term::new(Some("w"), a);
    t = t.times_mag(&Magnitude::new(3, 4));
    let mut m = MultiVector::new();
    m.push(t);
    let mut res = div(&m, &m).unwrap();
    res.simplify();
    assert_eq!(res.len(), 1);
    let u = res.term_at(0);
    assert_eq!(u.form(), Form::Point);
    assert_eq!(u.sign(), Sign::Pos);
    assert!(u.magnitude().eq_usize(1));
}

#[test]
fn hermitian_conjugation_is_correct_for_alphas() {
    for c in allowed_alpha_forms() {
        let alpha = Alpha::new(Sign::Pos, c).unwrap();
        let sign = ar_product(&alpha, &alpha).sign();
        let conjugate = alpha.hermitian();
        assert_eq!(conjugate, Alpha::new(sign, c).unwrap());
    }
}

#[test]
fn hermitian_conjugation_is_correct_for_terms() {
    for c in allowed_alpha_forms() {
        let alpha = Alpha::new(Sign::Pos, c).unwrap();
        let sign = ar_product(&alpha, &alpha).sign();
        let term = Term::new(None, alpha);
        let conjugate = term.hermitian();
        assert!(terms_agree(&conjugate, &Term::new(None, Alpha::new(sign, c).unwrap())));
    }
}

#[test]
fn hermitian_conjugation_is_correct_for_multivectors() {
    let mut terms = MultiVector::new();
    let mut negated = MultiVector::new();
    for c in allowed_alpha_forms() {
        let alpha = Alpha::new(Sign::Pos, c).unwrap();
        let sign = ar_product(&alpha, &alpha).sign();
        terms.push(Term::new(None, alpha));
        negated.push(Term::new(None, Alpha::new(sign, c).unwrap()));
    }
    let conjugate = terms.hermitian();
    assert!(mvecs_agree(&conjugate, &negated));
}

#[test]
fn conjugations_flip_the_documented_grades() {
    let p = Term::new(None, Alpha::new(Sign::Pos, Form::Point).unwrap());
    let v = vector_term(Index::Two);
    let b = Term::new(None, Alpha::new(Sign::Pos, Form::Bivector(Index::Two, Index::Three)).unwrap());
    let mut m = MultiVector::new();
    m.push(p);
    m.push(v);
    m.push(b);
    let rev = m.reversed();
    assert_eq!(rev.term_at(0).sign(), Sign::Pos);
    assert_eq!(rev.term_at(1).sign(), Sign::Pos);
    assert_eq!(rev.term_at(2).sign(), Sign::Neg);
    let dia = m.diamond();
    assert_eq!(dia.term_at(0).sign(), Sign::Pos);
    assert_eq!(dia.term_at(1).sign(), Sign::Neg);
    assert_eq!(dia.term_at(2).sign(), Sign::Neg);
    let dd = m.double_dagger();
    assert_eq!(dd.term_at(0).sign(), Sign::Neg);
    assert_eq!(dd.term_at(1).sign(), Sign::Neg);
    assert_eq!(dd.term_at(2).sign(), Sign::Pos);
}

#[test]
fn dual_multiplies_by_the_negative_quadrivector() {
    let mut m = MultiVector::new();
    m.push(vector_term(Index::Zero));
    let d = m.dual();
    assert_eq!(d.len(), 1);
    // -a0123 ^ a0 = a123: the metric sign of a0 cancels the leading minus.
    assert_eq!(d.term_at(0).form(), Form::Trivector(Index::One, Index::Two, Index::Three));
    assert_eq!(d.term_at(0).sign(), Sign::Pos);
}

#[test]
fn projection_keeps_one_grade() {
    let mut m = MultiVector::new();
    m.push(vector_term(Index::One));
    m.push(Term::new(None, Alpha::new(Sign::Pos, Form::Bivector(Index::Two, Index::Three)).unwrap()));
    m.push(vector_term(Index::Three));
    let vectors = m.project(&Form::Vector(Index::Zero));
    assert_eq!(vectors.len(), 2);
    assert_eq!(vectors.term_at(0).form(), Form::Vector(Index::One));
    assert_eq!(vectors.term_at(1).form(), Form::Vector(Index::Three));
    assert!(!m.is_scalar());
}

#[test]
fn differential_tags_and_multiplies() {
    let a0 = Alpha::new(Sign::Pos, Form::Vector(Index::Zero)).unwrap();
    let d = ArDifferential::new(&vec![a0]);
    let mut m = MultiVector::new();
    m.push(Term::new(Some("E"), Alpha::new(Sign::Pos, Form::Bivector(Index::Zero, Index::One)).unwrap()));
    let r = d.apply_left(&m);
    assert_eq!(r.len(), 1);
    // a0 inverted is a0; a0 ^ a01 = a1.
    assert_eq!(r.term_at(0).form(), Form::Vector(Index::One));
    assert_eq!(r.term_at(0).xi_str(), "∂0ξE");
}

#[test]
fn xi_merge_renders_power_groups() {
    let a = Alpha::new(Sign::Pos, Form::Vector(Index::Two)).unwrap();
    let t1 = Term::new(Some("x"), a);
    let t2 = Term::new(Some("x"), a);
    let prod = t1.form_product_with(&t2);
    assert_eq!(prod.xi_str(), "ξx^2");
    let t3 = Term::new(Some("y"), a);
    let prod2 = t1.form_product_with(&t3);
    assert_eq!(prod2.xi_str(), "ξx.ξy");
}

#[test]
fn metric_parsing_accepts_sign_strings() {
    let m = metric_from_string("+---").unwrap();
    assert_eq!(m[0], (Index::Zero, Sign::Pos));
    assert_eq!(m[1], (Index::One, Sign::Neg));
    assert_eq!(m[2], (Index::Two, Sign::Neg));
    assert_eq!(m[3], (Index::Three, Sign::Neg));
    assert!(metric_from_string("-+++").is_ok());
    assert!(metric_from_string("+--").is_err());
    assert!(metric_from_string("+-x-").is_err());
}

#[test]
fn key_vec_sorts_its_axes() {
    let kv = KeyVec::new(vec![Index::Three, Index::One]);
    assert_eq!(kv.0, vec![Index::One, Index::Three]);
}

#[test]
fn default_config_holds_the_registry() {
    let c = Config::new_default();
    assert_eq!(c.allowed.len(), 16);
    assert_eq!(c.metric.len(), 4);
}

#[test]
fn invalid_constructions_are_rejected() {
    assert!(Index::try_from_u8(4).is_err());
    assert!(Alpha::new(Sign::Pos, Form::Bivector(Index::One, Index::One)).is_err());
    assert!(Alpha::try_from_indices(Sign::Pos, &vec![Index::Zero, Index::Zero]).is_err());
    let e = arthroprod::error::ArError::InvalidIndex(String::from("7"));
    assert_eq!(e.describe(), "the index provided was not one of 0, 1, 2 or 3");
}

#[test]
fn term_rendering_uses_the_forms() {
    let t = Term::new(None, Alpha::new(Sign::Neg, Form::Bivector(Index::Two, Index::Three)).unwrap());
    assert_eq!(t.xi_str(), "ξ23");
    assert_eq!(t.alpha().as_string(), "-a23");
}

#[test]
fn canonical_order_puts_registry_names_first() {
    // A registry-indexed coefficient name sorts before a free name,
    // whatever the alphabet says.
    let point = Alpha::new(Sign::Pos, Form::Point).unwrap();
    let t_p = Term::new(None, point);
    let t_e = Term::new(Some("E"), point);
    assert_eq!(t_e.form_product_with(&t_p).xi_str(), "ξp.ξE");
    assert_eq!(t_p.form_product_with(&t_e).xi_str(), "ξp.ξE");
    // Within the registry, names follow registry order: 23 before 0.
    let t_23 = Term::new(Some("23"), point);
    let t_0 = Term::new(Some("0"), point);
    assert_eq!(t_0.form_product_with(&t_23).xi_str(), "ξ23.ξ0");
}

#[test]
fn general_division_inverts_a_single_term_against_a_sum() {
    // left is a single term, right a two-term quantity, so division takes
    // the general Van der Mark path; multiplying back must recover right.
    let a1 = Alpha::new(Sign::Pos, Form::Vector(Index::One)).unwrap();
    let mut left = MultiVector::new();
    left.push(Term::new(Some("x"), a1).times_mag(&Magnitude::new(2, 1)));
    let mut right = MultiVector::new();
    right.push(Term::new(Some("a"), Alpha::new(Sign::Pos, Form::Vector(Index::Zero)).unwrap()));
    right.push(Term::new(
        Some("b"),
        Alpha::new(Sign::Neg, Form::Bivector(Index::Two, Index::Three)).unwrap(),
    ));
    let d = div(&left, &right).unwrap();
    let mut back = full(&left, &d);
    back.simplify();
    let mut expected = right.duplicate();
    expected.simplify();
    assert_eq!(back.len(), expected.len());
    for k in 0..back.len() {
        let b = back.term_at(k);
        let e = expected.term_at(k);
        assert_eq!(b.alpha(), e.alpha());
        assert_eq!(b.magnitude(), e.magnitude());
    }
}

#[test]
fn mm_bar_multiplies_by_the_dual() {
    let mut m = MultiVector::new();
    m.push(vector_term(Index::Zero));
    let r = mm_bar(&m, true).unwrap();
    // a0 ^ dual(a0) = a0 ^ a123 = a0123.
    assert_eq!(r.len(), 1);
    assert_eq!(
        r.term_at(0).form(),
        Form::Quadrivector(Index::Zero, Index::One, Index::Two, Index::Three)
    );
    assert_eq!(r.term_at(0).sign(), Sign::Pos);
}

#[test]
fn try_simplify_matches_simplify_and_guards_the_bounds() {
    let mut m = MultiVector::new();
    m.push(vector_term(Index::Two));
    m.push(vector_term(Index::Two));
    let s = m.duplicate().try_simplify().unwrap();
    m.simplify();
    assert!(mvecs_agree(&s, &m));
}

#[test]
fn forms_parse_from_their_text() {
    assert_eq!(form_from_str("p").unwrap(), Form::Point);
    assert_eq!(form_from_str("23").unwrap(), Form::Bivector(Index::Two, Index::Three));
    assert_eq!(
        form_from_str("023").unwrap(),
        Form::Trivector(Index::Zero, Index::Two, Index::Three)
    );
    assert!(form_from_str("").is_err());
    assert!(form_from_str("01234").is_err());
    assert!(form_from_str("0x").is_err());
}

#[test]
fn a_whole_algebra_parses_and_a_short_one_does_not() {
    let indices = vec![
        "p", "23", "31", "12", "0", "023", "031", "012", "123", "1", "2", "3", "0123", "01",
        "02", "03",
    ];
    let forms = allowed_from_vec(indices).unwrap();
    assert_eq!(forms.len(), 16);
    assert_eq!(forms[0], Form::Point);
    assert_eq!(forms[15], Form::Bivector(Index::Zero, Index::Three));
    assert!(allowed_from_vec(vec!["p", "23"]).is_err());
    assert!(allowed_from_vec(vec![
        "p", "23", "31", "12", "0", "023", "031", "012", "123", "1", "2", "3", "01234", "01",
        "02", "03",
    ])
    .is_err());
}

#[test]
fn the_metric_answers_lookups() {
    let m = get_metric();
    assert_eq!(metric_sign_in(&m, Index::Zero), Some(Sign::Pos));
    assert_eq!(metric_sign_in(&m, Index::Two), Some(Sign::Neg));
    let custom = metric_from_string("-+++").unwrap();
    assert_eq!(metric_sign_in(&custom, Index::Zero), Some(Sign::Neg));
    assert_eq!(metric_sign_in(&custom, Index::Three), Some(Sign::Pos));
}

#[test]
fn quantities_negate_and_scale() {
    let mut m = MultiVector::new();
    m.push(vector_term(Index::One));
    m.push(Term::new(Some("q"), Alpha::new(Sign::Neg, Form::Point).unwrap()));
    let n = m.negated();
    assert_eq!(n.term_at(0).sign(), Sign::Neg);
    assert_eq!(n.term_at(1).sign(), Sign::Pos);
    let s = m.times_mag(&Magnitude::new(3, 2));
    assert_eq!(s.term_at(0).magnitude(), Magnitude::new(3, 2));
    let d = s.divided_by_mag(&Magnitude::new(3, 1));
    assert_eq!(d.term_at(0).magnitude(), Magnitude::new(1, 2));
}

#[test]
fn a_degenerate_divisor_is_told_apart_from_a_crossed_bound() {
    // A mixed point-and-vector quantity with free symbols: its Van der
    // Mark divisor spreads over several point terms and never collapses.
    let mut m = MultiVector::new();
    m.push(Term::new(Some("u"), Alpha::new(Sign::Pos, Form::Point).unwrap()));
    m.push(Term::new(Some("v"), Alpha::new(Sign::Pos, Form::Vector(Index::Zero)).unwrap()));
    let r = div(&m, &m);
    match r {
        Err(e) => assert_eq!(e, DivisionError::DegenerateDivisor),
        Ok(_) => panic!("division by a degenerate quantity gave a quotient"),
    }
}
