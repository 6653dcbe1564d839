use ledist_pi::{
    plan_e233, E233Content, E233DisplaySelection, E233Layout, E233PageDuration, FieldName,
    FieldSelection, Interval,
};

fn selection() -> E233DisplaySelection {
    E233DisplaySelection {
        service: FieldSelection::Off,
        route: FieldSelection::Off,
        service_change: FieldSelection::Off,
        through_route: FieldSelection::Off,
        destination: FieldSelection::Off,
        scroll_text: String::new(),
        brightness: 40,
    }
}

#[test]
fn rejects_conflicting_destination_and_service_change() {
    let mut s = selection();
    s.destination = FieldSelection::Asset("d".into());
    s.service_change = FieldSelection::Asset("c".into());
    assert!(plan_e233(&s).is_err())
}

#[test]
fn makes_service_destination_scroll_page() {
    let mut s = selection();
    s.service = FieldSelection::Asset("s".into());
    s.destination = FieldSelection::Asset("d".into());
    s.scroll_text = "next".into();
    let plan = plan_e233(&s).unwrap();
    assert!(matches!(
        plan.pages.last().unwrap().layout,
        E233Layout::ServiceAndRightSplit(_, _, _)
    ));
}

#[test]
fn route_with_service_uses_a_split_page_before_the_scroll_page() {
    let selection = E233DisplaySelection {
        service: FieldSelection::Asset("local".into()),
        route: FieldSelection::Asset("saikyo".into()),
        service_change: FieldSelection::Off,
        through_route: FieldSelection::Off,
        destination: FieldSelection::Off,
        scroll_text: "この電車は相鉄線へ直通します".into(),
        brightness: 40,
    };

    let plan = plan_e233(&selection).unwrap();
    assert!(matches!(
        plan.pages[0].layout,
        E233Layout::ServiceAndRightSplit(..)
    ));
    assert!(matches!(
        plan.pages[1].layout,
        E233Layout::ServiceAndRightSplit(..)
    ));
}

#[test]
fn static_pages_follow_destination_route_through_change_order() {
    let mut s = selection();
    s.service = FieldSelection::Blank;
    s.destination = FieldSelection::Asset("d".into());
    s.route = FieldSelection::Asset("r".into());
    s.through_route = FieldSelection::Asset("t".into());
    let plan = plan_e233(&s).unwrap();
    assert_eq!(plan.pages.len(), 3);
    assert!(matches!(
        plan.pages[0].layout,
        E233Layout::ServiceAndRight(..)
    ));
    assert!(matches!(
        plan.pages[1].layout,
        E233Layout::ServiceAndRightSplit(..)
    ));
    assert!(matches!(
        plan.pages[2].layout,
        E233Layout::ServiceAndRight(..)
    ));
}

#[test]
fn rejects_invalid_scroll_and_service_change_combinations() {
    let mut s = selection();
    s.through_route = FieldSelection::Asset("t".into());
    s.scroll_text = "notice".into();
    assert!(plan_e233(&s).is_err());
    let mut s = selection();
    s.service_change = FieldSelection::Asset("c".into());
    assert!(plan_e233(&s).is_err());
}

#[test]
fn participates_is_false_only_for_off() {
    assert!(!FieldSelection::Off.participates());
    assert!(FieldSelection::Blank.participates());
    assert!(FieldSelection::Asset("x".into()).participates());
}

#[test]
fn plan_errors_carry_their_messages() {
    let mut s = selection();
    s.through_route = FieldSelection::Asset("t".into());
    s.route = FieldSelection::Asset("r".into());
    s.scroll_text = "x".into();
    assert_eq!(
        plan_e233(&s).unwrap_err(),
        "直通先路線名とスクロール文字は同時に使用できません。"
    );

    let mut s = selection();
    s.destination = FieldSelection::Blank;
    s.service_change = FieldSelection::Blank;
    assert_eq!(plan_e233(&s).unwrap_err(), "行先と種別変更は同時に使用できません。");

    let mut s = selection();
    s.service = FieldSelection::Asset("s".into());
    s.scroll_text = "x".into();
    assert_eq!(
        plan_e233(&s).unwrap_err(),
        "スクロール文字を表示する場合は、行先または路線名を選択してください。"
    );

    let mut s = selection();
    s.service_change = FieldSelection::Asset("c".into());
    assert_eq!(
        plan_e233(&s).unwrap_err(),
        "種別変更を表示する場合は、種別または種別欄の「無表示」を選択してください。"
    );

    assert_eq!(plan_e233(&selection()).unwrap_err(), "表示する項目を選択してください。");
}

#[test]
fn white_space_only_scroll_text_counts_as_none() {
    let mut s = selection();
    s.through_route = FieldSelection::Asset("t".into());
    s.scroll_text = " \t\u{3000} ".into();
    let plan = plan_e233(&s).unwrap();
    assert_eq!(plan.pages.len(), 1);
    assert!(matches!(
        &plan.pages[0].layout,
        E233Layout::Full(E233Content::Field(FieldName::ThroughRoute, _))
    ));
}

#[test]
fn service_alone_gets_a_full_page() {
    let mut s = selection();
    s.service = FieldSelection::Asset("rapid".into());
    let plan = plan_e233(&s).unwrap();
    assert_eq!(plan.pages.len(), 1);
    assert_eq!(
        plan.pages[0].layout,
        E233Layout::Full(E233Content::Field(
            FieldName::Service,
            FieldSelection::Asset("rapid".into())
        ))
    );
    assert_eq!(
        plan.pages[0].duration,
        E233PageDuration::Fixed(Interval { secs: 3, nanos: 0 })
    );
}

#[test]
fn scroll_page_is_trimmed_and_last() {
    let mut s = selection();
    s.destination = FieldSelection::Asset("tokyo".into());
    s.scroll_text = "  next stop  ".into();
    let plan = plan_e233(&s).unwrap();
    assert_eq!(plan.pages.len(), 2);
    assert_eq!(
        plan.pages[1].layout,
        E233Layout::FullWidthSplit(
            E233Content::Field(FieldName::Destination, FieldSelection::Asset("tokyo".into())),
            E233Content::Scroll("next stop".into())
        )
    );
    assert_eq!(plan.pages[1].duration, E233PageDuration::UntilScrollEnd);
    assert_eq!(
        plan.pages[0].layout,
        E233Layout::Full(E233Content::Field(
            FieldName::Destination,
            FieldSelection::Asset("tokyo".into())
        ))
    );
}

#[test]
fn scroll_under_route_when_no_destination() {
    let mut s = selection();
    s.route = FieldSelection::Asset("saikyo".into());
    s.service_change = FieldSelection::Asset("rapid".into());
    s.service = FieldSelection::Blank;
    s.scroll_text = "go".into();
    let plan = plan_e233(&s).unwrap();
    assert_eq!(plan.pages.len(), 3);
    assert_eq!(
        plan.pages[0].layout,
        E233Layout::ServiceAndRightSplit(
            E233Content::Field(FieldName::Service, FieldSelection::Blank),
            E233Content::Field(FieldName::Route, FieldSelection::Asset("saikyo".into())),
            E233Content::Blank
        )
    );
    assert_eq!(
        plan.pages[1].layout,
        E233Layout::ServiceAndRight(
            E233Content::Field(FieldName::Service, FieldSelection::Blank),
            E233Content::Field(FieldName::ServiceChange, FieldSelection::Asset("rapid".into()))
        )
    );
    assert_eq!(
        plan.pages[2].layout,
        E233Layout::ServiceAndRightSplit(
            E233Content::Field(FieldName::Service, FieldSelection::Blank),
            E233Content::Field(FieldName::Route, FieldSelection::Asset("saikyo".into())),
            E233Content::Scroll("go".into())
        )
    );
}
