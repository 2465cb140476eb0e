use prismdmx::cue::GoDirection;
use prismdmx::fixture::FeatureGroup;
use prismdmx::ids::ViewId;
use prismdmx::session::WindowType;
use prismdmx::surface::{
    BoundControl, ExecutorButtonRef, ExecutorTarget, GlobalButton, ParamDirection, Step,
    StripButton, SurfaceAction, RESERVED_BUTTONS, RESERVED_REASON,
};

#[test]
fn every_control_round_trips_through_the_name_a_profile_spells_it_with() {
    for control in BoundControl::all() {
        let name = control.to_string();
        assert_eq!(BoundControl::from_name(&name), Some(control), "{name}");
    }
}

#[test]
fn the_names_are_the_ones_section_4_2_gives() {
    assert_eq!(BoundControl::StripFader.to_string(), "Strip[*].Fader");
    assert_eq!(BoundControl::StripEncoder.to_string(), "Strip[*].Encoder");
    assert_eq!(BoundControl::MainFader.to_string(), "Main.Fader");
    assert_eq!(BoundControl::Jog.to_string(), "Global.Jog");
    assert_eq!(
        BoundControl::StripButton {
            button: StripButton::VPotPush
        }
        .to_string(),
        "Strip[*].Button.VPotPush"
    );
    assert_eq!(
        BoundControl::Global {
            button: GlobalButton::AssignPlugin
        }
        .to_string(),
        "Global.AssignPlugin"
    );
}

#[test]
fn a_name_that_is_not_a_control_is_refused() {
    for name in [
        "",
        "Strip[*].Touch",
        "Strip[*].Button.Wibble",
        "Global.Nonesuch",
        "Global.",
        "Main.Encoder",
        "Strip[0].Fader",
    ] {
        assert_eq!(BoundControl::from_name(name), None, "{name:?}");
    }
}

#[test]
fn the_list_is_the_whole_desk_and_has_no_repeats() {
    let controls = BoundControl::all();
    assert_eq!(controls.len(), 1 + 1 + 5 + 1 + 1 + 64);
    let mut sorted = controls.clone();
    sorted.sort_unstable();
    sorted.dedup();
    assert_eq!(sorted.len(), controls.len());
    assert_eq!(controls.first(), Some(&BoundControl::StripFader));
    assert_eq!(
        controls.last(),
        Some(&BoundControl::Global {
            button: GlobalButton::FootSwitch2
        })
    );
}

#[test]
fn only_smpte_beats_is_reserved() {
    assert_eq!(RESERVED_BUTTONS, [GlobalButton::SmpteBeats]);
    for control in BoundControl::all() {
        let expected = control
            == BoundControl::Global {
                button: GlobalButton::SmpteBeats,
            };
        assert_eq!(
            control.reserved().is_some(),
            expected,
            "{}",
            control.to_string()
        );
    }
    assert!(RESERVED_REASON.contains("Xctl+MC"));
    assert!(RESERVED_REASON.contains("switches the desk between the two hosts"));
    assert!(RESERVED_REASON.contains("Leave it unbound"));
}

#[test]
fn an_executor_button_is_the_only_momentary_action() {
    assert!(
        SurfaceAction::ExecutorButton {
            target: ExecutorTarget::Strip,
            button: ExecutorButtonRef::Slot { index: 0 },
        }
        .is_momentary()
    );
    for action in [
        SurfaceAction::ExecutorMaster {
            target: ExecutorTarget::Strip,
        },
        SurfaceAction::ExecutorGo {
            target: ExecutorTarget::Selected,
            direction: GoDirection::Next,
        },
        SurfaceAction::ExecutorOff {
            target: ExecutorTarget::Strip,
        },
        SurfaceAction::SelectExecutor {
            target: ExecutorTarget::Strip,
        },
        SurfaceAction::ClearProgrammer,
        SurfaceAction::ExecutorPage { delta: -1 },
        SurfaceAction::SelectView {
            view: ViewId::new(1),
        },
        SurfaceAction::StepView {
            direction: Step::Next,
        },
        SurfaceAction::ProgrammerPage { delta: 1 },
        SurfaceAction::SelectProgrammerParam {
            direction: ParamDirection::Prev,
        },
        SurfaceAction::AdjustParameter,
        SurfaceAction::SetEncoderBank {
            group: FeatureGroup::Color,
        },
        SurfaceAction::OpenWindow {
            window: WindowType::Patch,
        },
        SurfaceAction::SaveShow,
        SurfaceAction::Oops,
        SurfaceAction::Redo,
    ] {
        assert!(!action.is_momentary(), "{action:?}");
    }
}

#[test]
fn every_button_name_is_distinct_and_reverses() {
    let mut names: Vec<&str> = GlobalButton::ALL
        .iter()
        .map(|button| button.name())
        .collect();
    names.sort_unstable();
    let count = names.len();
    names.dedup();
    assert_eq!(names.len(), count, "two panel buttons share a name");
    for (index, button) in GlobalButton::ALL.into_iter().enumerate() {
        assert_eq!(GlobalButton::from_name(button.name()), Some(button));
        assert_eq!(button.to_string(), button.name());
        assert_eq!(button.index(), index);
    }
    for button in StripButton::ALL {
        assert_eq!(StripButton::from_name(button.name()), Some(button));
        assert_eq!(button.to_string(), button.name());
        assert_eq!(StripButton::ALL[button.index()], button);
    }
    assert_eq!(GlobalButton::from_name("Nonesuch"), None);
    assert_eq!(StripButton::from_name("Nonesuch"), None);
}

#[test]
fn a_command_line_binding_is_not_momentary_either() {
    let action = SurfaceAction::WriteCommandLine {
        line: "Go Executor 1".to_owned(),
        submit: true,
    };
    assert!(!action.is_momentary());
    assert!(!SurfaceAction::OpenWindowPicker.is_momentary());
}
