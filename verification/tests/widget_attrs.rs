use eww::widget_attrs::{parse_align, parse_orientation, parse_transition, Align, Orientation, RevealerTransitionType};

#[test]
fn orientations() {
    assert_eq!(parse_orientation("vertical"), Ok(Orientation::Vertical));
    assert_eq!(parse_orientation("V"), Ok(Orientation::Vertical));
    assert_eq!(parse_orientation("Horizontal"), Ok(Orientation::Horizontal));
    assert_eq!(parse_orientation("h"), Ok(Orientation::Horizontal));
    assert_eq!(
        parse_orientation("Diagonal"),
        Err("Couldn't parse orientation: 'diagonal'. Possible values are vertical v horizontal h ".to_string())
    );
}

#[test]
fn transitions() {
    assert_eq!(parse_transition("slideright"), Ok(RevealerTransitionType::SlideRight));
    assert_eq!(parse_transition("SlideLeft"), Ok(RevealerTransitionType::SlideLeft));
    assert_eq!(parse_transition("slideup"), Ok(RevealerTransitionType::SlideUp));
    assert_eq!(parse_transition("slidedown"), Ok(RevealerTransitionType::SlideDown));
    assert_eq!(parse_transition("fade"), Ok(RevealerTransitionType::Crossfade));
    assert_eq!(parse_transition("CROSSFADE"), Ok(RevealerTransitionType::Crossfade));
    assert_eq!(parse_transition("none"), Ok(RevealerTransitionType::NoTransition));
    assert_eq!(
        parse_transition("Spin"),
        Err("Couldn't parse transition: 'spin'. Possible values are slideright slideleft slideup slidedown fade crossfade none "
            .to_string())
    );
}

#[test]
fn alignments() {
    assert_eq!(parse_align("fill"), Ok(Align::Fill));
    assert_eq!(parse_align("Baseline"), Ok(Align::Baseline));
    assert_eq!(parse_align("CENTER"), Ok(Align::Center));
    assert_eq!(parse_align("start"), Ok(Align::Start));
    assert_eq!(parse_align("end"), Ok(Align::End));
    assert_eq!(
        parse_align("Middle"),
        Err("Couldn't parse alignment: 'middle'. Possible values are fill baseline center start end ".to_string())
    );
}
