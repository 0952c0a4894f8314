use isucondition::codec::{format_condition, is_valid_condition_format, parse_condition, ConditionFlags};

fn flags(d: bool, o: bool, b: bool) -> ConditionFlags {
    ConditionFlags { is_dirty: d, is_overweight: o, is_broken: b }
}

fn all_combinations() -> Vec<ConditionFlags> {
    let mut out = Vec::new();
    for &d in &[false, true] {
        for &o in &[false, true] {
            for &b in &[false, true] {
                out.push(flags(d, o, b));
            }
        }
    }
    out
}

#[test]
fn format_spells_the_canonical_string() {
    assert_eq!(
        format_condition(&flags(false, false, false)),
        "is_dirty=false,is_overweight=false,is_broken=false"
    );
    assert_eq!(
        format_condition(&flags(true, false, true)),
        "is_dirty=true,is_overweight=false,is_broken=true"
    );
    assert_eq!(
        format_condition(&flags(true, true, true)),
        "is_dirty=true,is_overweight=true,is_broken=true"
    );
}

#[test]
fn parse_after_format_returns_the_flags() {
    for f in all_combinations() {
        let s = format_condition(&f);
        assert_eq!(parse_condition(&s), Ok(f));
    }
}

#[test]
fn format_after_parse_returns_the_string() {
    let valid = [
        "is_dirty=false,is_overweight=false,is_broken=false",
        "is_dirty=true,is_overweight=false,is_broken=false",
        "is_dirty=false,is_overweight=true,is_broken=false",
        "is_dirty=false,is_overweight=false,is_broken=true",
        "is_dirty=true,is_overweight=true,is_broken=false",
        "is_dirty=true,is_overweight=false,is_broken=true",
        "is_dirty=false,is_overweight=true,is_broken=true",
        "is_dirty=true,is_overweight=true,is_broken=true",
    ];
    for s in valid {
        let f = parse_condition(s).expect("grammar string must parse");
        assert_eq!(format_condition(&f), s);
    }
}

#[test]
fn parse_rejects_deviations() {
    let invalid = [
        "",
        "is_dirty=true",
        "is_dirty=true,is_overweight=false",
        "is_overweight=false,is_dirty=true,is_broken=false",
        "is_dirty=True,is_overweight=false,is_broken=false",
        "is_dirty=true, is_overweight=false,is_broken=false",
        "is_dirty=true,is_overweight=false,is_broken=false ",
        " is_dirty=true,is_overweight=false,is_broken=false",
        "is_dirty=true,is_overweight=false,is_broken=falsex",
        "is_dirty=true,is_overweight=false,is_broken=fals",
        "is_dirty=1,is_overweight=false,is_broken=false",
        "is_dirty=true,is_overweight=false,is_broken=false,is_dirty=true",
        "IS_DIRTY=true,is_overweight=false,is_broken=false",
    ];
    for s in invalid {
        assert!(parse_condition(s).is_err(), "{s:?} must be rejected");
        assert!(!is_valid_condition_format(s), "{s:?} must be invalid");
    }
}

#[test]
fn is_valid_condition_format_accepts_the_grammar() {
    assert!(is_valid_condition_format(
        "is_dirty=false,is_overweight=false,is_broken=false"
    ));
    assert!(is_valid_condition_format(
        "is_dirty=true,is_overweight=true,is_broken=true"
    ));
    for f in all_combinations() {
        assert!(is_valid_condition_format(&format_condition(&f)));
    }
}
