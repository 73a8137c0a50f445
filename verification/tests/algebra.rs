//! Exhaustive and scenario tests for the directed-unit algebra.

use arthroprod::alpha::Alpha;
use arthroprod::form::Form;
use arthroprod::index::Index;
use arthroprod::product::ar_product;
use arthroprod::product::target_ordering_of;
use arthroprod::registry::allowed_alpha_forms;
use arthroprod::registry::allowed_alpha_strings;
use arthroprod::registry::form_is_allowed;
use arthroprod::sign::Sign;

fn unit(form: Form) -> Alpha {
    Alpha::new(Sign::Pos, form).unwrap()
}

fn unit_from(s: &str) -> Alpha {
    let sign = if s.starts_with('-') { Sign::Neg } else { Sign::Pos };
    let body = s.trim_matches('-');
    if body == "p" {
        return Alpha::new(sign, Form::Point).unwrap();
    }
    let mut ixs = Vec::new();
    for c in body.chars() {
        ixs.push(Index::try_from_u8(c.to_digit(10).unwrap() as u8).unwrap());
    }
    Alpha::try_from_indices(sign, &ixs).unwrap()
}

#[test]
fn target_ordering_is_always_correct_for_allowed() {
    for c in allowed_alpha_forms() {
        let axes = c.as_vec();
        assert_eq!(target_ordering_of(&axes), axes);
    }
}

#[test]
fn maching_forms_cancel_completely() {
    for c in allowed_alpha_forms() {
        let a = unit(c);
        assert_eq!(ar_product(&a, &a).form(), Form::Point);
    }
}

#[test]
fn cancelling_repreats_never_leaves_duplicate_axes() {
    // A duplicate surviving axis would leave the registry, so closure over
    // every pair covers it.
    for c1 in allowed_alpha_forms() {
        for c2 in allowed_alpha_forms() {
            let r = ar_product(&unit(c1), &unit(c2));
            assert!(form_is_allowed(&r.form()));
        }
    }
}

#[test]
fn swapping_axes_negates_when_not_squaring() {
    let axes = [Index::Zero, Index::One, Index::Two, Index::Three];
    for i in axes.iter() {
        for j in axes.iter() {
            if i == j {
                continue;
            }
            let a1 = Alpha::new(Sign::Pos, Form::Vector(*i)).unwrap();
            let a2 = Alpha::new(Sign::Pos, Form::Vector(*j)).unwrap();
            let res1 = ar_product(&a1, &a2);
            let res2 = ar_product(&a2, &a1);
            assert_eq!(res1.form(), res2.form());
            assert_ne!(res1.sign(), res2.sign());
        }
    }
}

#[test]
fn alphas_invert_through_ap() {
    let ap = Alpha::new(Sign::Pos, Form::Point).unwrap();
    for c in allowed_alpha_forms() {
        let alpha = unit(c);
        assert_eq!(ar_product(&alpha, &alpha.inverse()), ap);
    }
}

#[test]
fn allowed_consts_match() {
    let forms: Vec<String> = allowed_alpha_forms().iter().map(|f| f.as_string()).collect();
    assert_eq!(forms, allowed_alpha_strings());
}

#[test]
fn point_is_the_identity_both_ways() {
    let pos_p = unit_from("p");
    let neg_p = unit_from("-p");
    for c in allowed_alpha_forms() {
        for sign in [Sign::Pos, Sign::Neg] {
            let a = Alpha::new(sign, c).unwrap();
            assert_eq!(ar_product(&a, &pos_p), a);
            let negated = ar_product(&a, &neg_p);
            assert_eq!(negated.form(), a.form());
            assert_ne!(negated.sign(), a.sign());
            assert_eq!(ar_product(&pos_p, &a), a);
        }
    }
}

#[test]
fn squares_follow_the_metric() {
    // Temporal axes square to the positive point, spatial content to the
    // negative one, with the reversal parity of the grade on top.
    let expected: [(&str, Sign); 16] = [
        ("p", Sign::Pos),
        ("23", Sign::Neg),
        ("31", Sign::Neg),
        ("12", Sign::Neg),
        ("0", Sign::Pos),
        ("023", Sign::Neg),
        ("031", Sign::Neg),
        ("012", Sign::Neg),
        ("123", Sign::Pos),
        ("1", Sign::Neg),
        ("2", Sign::Neg),
        ("3", Sign::Neg),
        ("0123", Sign::Neg),
        ("01", Sign::Pos),
        ("02", Sign::Pos),
        ("03", Sign::Pos),
    ];
    for (s, sign) in expected {
        let a = unit_from(s);
        let sq = ar_product(&a, &a);
        assert_eq!(sq.form(), Form::Point, "square of {}", s);
        assert_eq!(sq.sign(), sign, "square sign of {}", s);
    }
}

#[test]
fn closure_over_the_whole_registry() {
    for c1 in allowed_alpha_forms() {
        for c2 in allowed_alpha_forms() {
            for s1 in [Sign::Pos, Sign::Neg] {
                for s2 in [Sign::Pos, Sign::Neg] {
                    let a = Alpha::new(s1, c1).unwrap();
                    let b = Alpha::new(s2, c2).unwrap();
                    assert!(form_is_allowed(&ar_product(&a, &b).form()));
                }
            }
        }
    }
}

#[test]
fn triple_products_split_into_two_sign_classes() {
    let axes = [Index::Zero, Index::One, Index::Two, Index::Three];
    for i in axes.iter() {
        for j in axes.iter() {
            for k in axes.iter() {
                if i == j || j == k || i == k {
                    continue;
                }
                let v = |x: &Index| Alpha::new(Sign::Pos, Form::Vector(*x)).unwrap();
                let chain = |a: &Index, b: &Index, c: &Index| {
                    ar_product(&ar_product(&v(a), &v(b)), &v(c))
                };
                let ijk = chain(i, j, k);
                let jki = chain(j, k, i);
                let kij = chain(k, i, j);
                let ikj = chain(i, k, j);
                let jik = chain(j, i, k);
                let kji = chain(k, j, i);
                assert_eq!(ijk, jki);
                assert_eq!(ijk, kij);
                assert_eq!(ikj, jik);
                assert_eq!(ikj, kji);
                assert_eq!(ijk.form(), ikj.form());
                assert_ne!(ijk.sign(), ikj.sign());
            }
        }
    }
}

#[test]
fn concrete_products_match_the_metric_and_pop_count() {
    assert_eq!(ar_product(&unit_from("31"), &unit_from("01")), unit_from("-03"));
    assert_eq!(ar_product(&unit_from("31"), &unit_from("31")), unit_from("-p"));
}
