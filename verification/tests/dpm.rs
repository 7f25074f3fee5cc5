use dccms_atlas::dpm_prime::lemmas;
use dccms_atlas::dpm_prime::theorems;
use dccms_atlas::dpm_prime::validation;
use dccms_atlas::dpm_prime::{run_full_stack, TheoremResult};

#[test]
fn lemma_l1_passes() {
    assert!(lemmas::l1_calendar_round().is_pass());
}
#[test]
fn lemma_l2_passes() {
    assert!(lemmas::l2_tzolkin().is_pass());
}
#[test]
fn lemma_l3_passes() {
    assert!(lemmas::l3_three_tier_819().is_pass());
}
#[test]
fn lemma_l4_passes() {
    assert!(lemmas::l4_eclipse_tzolkin().is_pass());
}
#[test]
fn lemma_l5_passes() {
    assert!(lemmas::l5_correction().is_pass());
}
#[test]
fn lemma_l6_passes() {
    assert!(lemmas::l6_venus_sun().is_pass());
}
#[test]
fn lemma_l7_passes() {
    assert!(lemmas::l7_no_synodic_carries_11().is_pass());
}
#[test]
fn lemma_l8_passes() {
    assert!(lemmas::l8_saturn_eleven_squared().is_pass());
}
#[test]
fn lemma_l9_passes() {
    assert!(lemmas::l9_mars_tzolkin().is_pass());
}
#[test]
fn lemma_l10_passes() {
    assert!(lemmas::l10_venus_five_seven().is_pass());
}

#[test]
fn theorem_t1_passes() {
    assert!(theorems::t1_calendar_round_as_crt_torus().is_pass());
}
#[test]
fn theorem_t2_passes() {
    assert!(theorems::t2_tzolkin_minimum().is_pass());
}
#[test]
fn theorem_t3_passes() {
    assert!(theorems::t3_819_three_tier().is_pass());
}
#[test]
fn theorem_t4_conditional() {
    let r = theorems::t4_long_count_covers_calendar_round();
    assert!(r.is_conditional(), "T4 should be Conditional, got {:?}", r);
}
#[test]
fn theorem_t5_passes() {
    assert!(theorems::t5_eclipse_two_phase_lift().is_pass());
}
#[test]
fn theorem_t6_passes() {
    assert!(theorems::t6_venus_sun_73().is_pass());
}
#[test]
fn theorem_t7_passes() {
    assert!(theorems::t7_eleven_astronomically_absent().is_pass());
}
#[test]
fn theorem_t8_passes() {
    assert!(theorems::t8_saturn_shadow_power().is_pass());
}
#[test]
fn theorem_t9_passes() {
    assert!(theorems::t9_mars_closes_tzolkin().is_pass());
}
#[test]
fn theorem_t10_passes() {
    assert!(theorems::t10_s_r_distribution().is_pass());
}

#[test]
fn all_14_validation_identities_pass() {
    let results = validation::all();
    for (i, &result) in results.iter().enumerate() {
        assert!(result, "V{} failed", i + 1);
    }
    assert!(validation::v1());
    assert!(validation::v2());
    assert!(validation::v3());
    assert!(validation::v4());
    assert!(validation::v5());
    assert!(validation::v6());
    assert!(validation::v7());
    assert!(validation::v8());
    assert!(validation::v9());
    assert!(validation::v10());
    assert!(validation::v11());
    assert!(validation::v12());
    assert!(validation::v13());
    assert!(validation::v14());
}

#[test]
fn v14_strict_matches_theorem_t2_predicate() {
    assert!(validation::v14_strict());
    let (weak, strict) = validation::v14_full_alignment();
    assert!(weak, "V14 (weak / vault verbatim) failed");
    assert!(strict, "V14_strict (T2-aligned) failed");
}

#[test]
fn full_stack_nine_pass_one_conditional() {
    let results = run_full_stack();
    assert_eq!(results.len(), 10);
    let pass_count = results.iter().filter(|(_, r)| r.is_pass()).count();
    let cond_count = results.iter().filter(|(_, r)| r.is_conditional()).count();
    let fail_count = results.iter().filter(|(_, r)| !r.is_pass() && !r.is_conditional()).count();
    assert_eq!(pass_count, 9, "expected 9 Pass, got {}", pass_count);
    assert_eq!(cond_count, 1, "expected 1 Conditional (T4), got {}", cond_count);
    assert_eq!(fail_count, 0, "expected 0 Fail, got {}", fail_count);
    let t4 = results.iter().find(|(name, _)| *name == "T4").unwrap();
    assert!(t4.1.is_conditional());
}

#[test]
fn witnesses_are_exact() {
    assert_eq!(
        lemmas::l1_calendar_round(),
        TheoremResult::Pass { witness: "18,980 = 2²·5·13·73; gcd(260,365)=5".to_string() }
    );
    assert_eq!(
        theorems::t5_eclipse_two_phase_lift(),
        TheoremResult::Pass {
            witness: "Phase1 closes 5-channel (5|11960); Phase2 closes 3-channel (3|93); combined lcm = 1112280"
                .to_string()
        }
    );
    assert_eq!(
        theorems::t8_saturn_shadow_power(),
        TheoremResult::Pass { witness: "Δ_S = 242 = 2·11²".to_string() }
    );
    match theorems::t4_long_count_covers_calendar_round() {
        TheoremResult::Conditional { verified, pending } => {
            assert!(verified.starts_with("1,872,000 = 13·Baktun; 1,872,000/18,980 = 7200/73 = 98 + 46/73; 73 ∤ 7200"));
            assert!(pending.ends_with("outside dccms"));
        }
        other => panic!("T4 should be conditional, got {:?}", other),
    }
    let names: Vec<&str> = run_full_stack().iter().map(|(n, _)| *n).collect();
    assert_eq!(names, vec!["T1", "T2", "T3", "T4", "T5", "T6", "T7", "T8", "T9", "T10"]);
}

#[test]
fn theorem_result_constructors() {
    let p = TheoremResult::pass("ok");
    assert!(p.is_pass() && !p.is_conditional());
    assert_eq!(p, TheoremResult::Pass { witness: "ok".to_string() });
    let f = TheoremResult::Fail { reason: "no".to_string() };
    assert!(!f.is_pass() && !f.is_conditional());
}
