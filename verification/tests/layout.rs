use crown::layout::{flex_constraints, FlexDirection, FlexItemSpec, LayoutConstraint};

#[test]
fn test_flex_constraints_shares_by_weight() {
    let items = [
        FlexItemSpec::Fixed { size: 3 },
        FlexItemSpec::Flex { weight: 1 },
        FlexItemSpec::Flex { weight: 2 },
    ];
    assert_eq!(
        flex_constraints(&items),
        vec![LayoutConstraint::Length(3), LayoutConstraint::Ratio(1, 3), LayoutConstraint::Ratio(2, 3)]
    );
}

#[test]
fn test_flex_constraints_zero_weight() {
    let items = [FlexItemSpec::Flex { weight: 0 }, FlexItemSpec::Fixed { size: 1 }];
    assert_eq!(flex_constraints(&items), vec![LayoutConstraint::Min(0), LayoutConstraint::Length(1)]);
    assert_ne!(FlexDirection::Horizontal, FlexDirection::Vertical);
}

