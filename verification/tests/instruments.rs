use dccms_atlas::h4_instruments::{
    compression_resistance, configuration_match, cross_reference_mapper, information_content,
    montgomery_shadow, necessity_surplus, run_h4_suite, CompressionResistanceInput,
    ConfigurationMatchInput, CrossReferenceInput, H4Inputs, H4Report, H4Verdict,
    InformationContentInput, InstrumentResult, MontgomeryShadowInput, NecessitySurplusInput,
};

#[test]
fn empty_report_is_indeterminate() {
    let report = H4Report::from_instruments(vec![]);
    assert_eq!(report.verdict, H4Verdict::Indeterminate);
    assert_eq!(report.verdict.label(), "INDETERMINATE");
}

#[test]
fn three_fired_is_supported() {
    let instruments = vec![
        InstrumentResult::new("A", 5000, 3000, "fired"),
        InstrumentResult::new("B", 5000, 3000, "fired"),
        InstrumentResult::new("C", 5000, 3000, "fired"),
        InstrumentResult::new("D", 1000, 3000, "below"),
        InstrumentResult::new("E", 1000, 3000, "below"),
        InstrumentResult::new("F", 1000, 3000, "below"),
    ];
    let report = H4Report::from_instruments(instruments);
    assert_eq!(report.verdict, H4Verdict::Supported);
    assert_eq!(report.fire_count(), 3);
}

#[test]
fn one_fired_is_partial() {
    let instruments = vec![
        InstrumentResult::new("A", 5000, 3000, "fired"),
        InstrumentResult::new("B", 1000, 3000, "below"),
        InstrumentResult::new("C", 1000, 3000, "below"),
        InstrumentResult::new("D", 1000, 3000, "below"),
        InstrumentResult::new("E", 1000, 3000, "below"),
        InstrumentResult::new("F", 1000, 3000, "below"),
    ];
    let report = H4Report::from_instruments(instruments);
    assert_eq!(report.verdict, H4Verdict::Partial);
}

#[test]
fn zero_fired_is_unsupported() {
    let instruments = vec![
        InstrumentResult::new("A", 1000, 3000, "below"),
        InstrumentResult::new("B", 1000, 3000, "below"),
        InstrumentResult::new("C", 1000, 3000, "below"),
        InstrumentResult::new("D", 1000, 3000, "below"),
        InstrumentResult::new("E", 1000, 3000, "below"),
        InstrumentResult::new("F", 1000, 3000, "below"),
    ];
    let report = H4Report::from_instruments(instruments);
    assert_eq!(report.verdict, H4Verdict::Unsupported);
}

#[test]
fn necessity_surplus_basic() {
    let r = necessity_surplus(NecessitySurplusInput {
        observed_content_bp: 7000,
        biological_minimum_bp: 4000,
        surplus_threshold_bp: 2000,
    });
    assert_eq!(r.signal_bp, 3000);
    assert!(r.fired);
    assert_eq!(r.notes, "Surplus = 3000 bp over biological baseline 4000 bp");
}

#[test]
fn necessity_surplus_saturates_at_zero() {
    let r = necessity_surplus(NecessitySurplusInput {
        observed_content_bp: 3000,
        biological_minimum_bp: 4000,
        surplus_threshold_bp: 0,
    });
    assert_eq!(r.signal_bp, 0);
    assert!(r.fired);
}

#[test]
fn cross_reference_density_computed() {
    let r = cross_reference_mapper(CrossReferenceInput {
        anchor_matches: 25,
        total_numerical_units: 100,
        density_threshold_bp: 2000,
    });
    assert_eq!(r.signal_bp, 2500);
    assert!(r.fired);
    assert_eq!(r.notes, "25/100 numerical references match substrate anchors");
    let empty = cross_reference_mapper(CrossReferenceInput {
        anchor_matches: 3,
        total_numerical_units: 0,
        density_threshold_bp: 1,
    });
    assert_eq!(empty.signal_bp, 0);
    assert!(!empty.fired);
}

#[test]
fn information_content_excess() {
    let r = information_content(InformationContentInput {
        goddess_entropy_bp: 6000,
        baseline_entropy_bp: 4500,
        excess_threshold_bp: 1000,
    });
    assert_eq!(r.signal_bp, 1500);
    assert!(r.fired);
    assert_eq!(r.notes, "Goddess 6000 bp vs baseline 4500 bp → excess 1500 bp");
}

#[test]
fn compression_reduction_basic() {
    let r = compression_resistance(CompressionResistanceInput {
        bio_only_compressed_size: 1000,
        dual_compressed_size: 700,
        reduction_threshold_bp: 2000,
    });
    assert_eq!(r.signal_bp, 3000);
    assert!(r.fired);
    assert_eq!(r.notes, "Dual model reduces compressed size from 1000 to 700 (3000 bp)");
}

#[test]
fn configuration_and_montgomery_rates() {
    let c = configuration_match(ConfigurationMatchInput {
        matched_signatures: 40,
        total_examined: 100,
        match_threshold_bp: 5000,
    });
    assert_eq!(c.signal_bp, 4000);
    assert!(!c.fired);
    let m = montgomery_shadow(MontgomeryShadowInput {
        nontrivial_shadow_count: 1,
        total_pairs: 3,
        density_threshold_bp: 3333,
    });
    assert_eq!(m.signal_bp, 3333);
    assert!(m.fired);
    assert_eq!(m.notes, "1/3 (r_11, r_13) pairs show nontrivial shadow");
}

#[test]
fn run_full_suite_completes() {
    let inputs = H4Inputs {
        necessity: NecessitySurplusInput {
            observed_content_bp: 7000,
            biological_minimum_bp: 4000,
            surplus_threshold_bp: 2000,
        },
        cross_ref: CrossReferenceInput {
            anchor_matches: 30,
            total_numerical_units: 100,
            density_threshold_bp: 2000,
        },
        info_content: InformationContentInput {
            goddess_entropy_bp: 6000,
            baseline_entropy_bp: 4500,
            excess_threshold_bp: 1000,
        },
        config_match: ConfigurationMatchInput {
            matched_signatures: 40,
            total_examined: 100,
            match_threshold_bp: 2000,
        },
        compression: CompressionResistanceInput {
            bio_only_compressed_size: 1000,
            dual_compressed_size: 700,
            reduction_threshold_bp: 2000,
        },
        montgomery: MontgomeryShadowInput {
            nontrivial_shadow_count: 25,
            total_pairs: 100,
            density_threshold_bp: 2000,
        },
    };
    let report = run_h4_suite(inputs);
    assert_eq!(report.instruments.len(), 6);
    assert_eq!(report.verdict, H4Verdict::Supported);
    assert_eq!(report.fire_count(), 6);
}
