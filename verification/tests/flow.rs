use auto_boya::flow::{advance, load_step, Label, LoadNext, LoadStage, Next, Notice, Outcome, Stage, Tint};

fn note(label: Label, tint: Tint, text: &str) -> Option<Notice> {
    Some(Notice { label, tint, text: text.to_string() })
}

#[test]
fn label_texts() {
    assert_eq!(Label::Info.text(), "[info]");
    assert_eq!(Label::Warn.text(), "[warn]");
    assert_eq!(Label::Error.text(), "[error]");
    assert_eq!(Label::ErrorTitle.text(), "[Error]");
}

#[test]
fn load_decisions() {
    assert_eq!(load_step(LoadStage::Read, true), (None, LoadNext::Parse));
    assert_eq!(load_step(LoadStage::Parse, true), (None, LoadNext::Use));
    assert_eq!(
        load_step(LoadStage::Read, false),
        (note(Label::Warn, Tint::Yellow, "No config file found, try to initialize"), LoadNext::Reinitialize)
    );
    assert_eq!(
        load_step(LoadStage::Parse, false),
        (note(Label::Warn, Tint::Yellow, "Bad config, try to initialize"), LoadNext::Reinitialize)
    );
}

#[test]
fn driver_start_goes_on_either_way() {
    let s = advance(Stage::StartDriver, Outcome::Done);
    assert_eq!(s.notice, None);
    assert_eq!(s.next, Next::Go(Stage::CheckChrome));
    let s = advance(Stage::StartDriver, Outcome::Failed("No such file or directory".to_string()));
    assert_eq!(
        s.notice,
        note(Label::Error, Tint::Red, "Can't start Chrome driver because No such file or directory")
    );
    assert_eq!(s.next, Next::Go(Stage::CheckChrome));
}

#[test]
fn failures_that_stop() {
    let cases = [
        (Stage::CheckChrome, Label::ErrorTitle, Tint::Red, "Failed to find chrome binary"),
        (Stage::ConnectDriver, Label::ErrorTitle, Tint::Red, "Failed to connect chrome driver"),
        (Stage::Redirect, Label::Error, Tint::Green, "Redirect failed"),
        (Stage::PickCourse, Label::Error, Tint::Red, "Invalid input. It is out of range"),
    ];
    for (stage, label, tint, text) in cases {
        let s = advance(stage, Outcome::Failed("x".to_string()));
        assert_eq!(s.notice, note(label, tint, text));
        assert_eq!(s.next, Next::Stop);
    }
}

#[test]
fn successes_move_forward() {
    assert_eq!(advance(Stage::CheckChrome, Outcome::Done).next, Next::Go(Stage::ConnectDriver));
    assert_eq!(advance(Stage::CheckChrome, Outcome::Done).notice, None);
    assert_eq!(advance(Stage::ConnectDriver, Outcome::Done).next, Next::Go(Stage::Redirect));
    let s = advance(Stage::Redirect, Outcome::Done);
    assert_eq!(s.notice, note(Label::Info, Tint::Green, "Redirect to https://bykc.buaa.edu.cn"));
    assert_eq!(s.next, Next::Go(Stage::PickCourse));
    assert_eq!(advance(Stage::PickCourse, Outcome::Done).next, Next::Go(Stage::ClickChoose));
    assert_eq!(advance(Stage::ClickChoose, Outcome::Done).next, Next::Go(Stage::Confirm));
    let s = advance(Stage::Confirm, Outcome::Done);
    assert_eq!(s.notice, note(Label::Info, Tint::Green, "Choose success"));
    assert_eq!(s.next, Next::Finish);
}

#[test]
fn choosing_failures_still_finish() {
    let s = advance(Stage::ClickChoose, Outcome::Failed("x".to_string()));
    assert_eq!(s.notice, note(Label::Error, Tint::Green, "Choose failed"));
    assert_eq!(s.next, Next::Go(Stage::Confirm));
    let s = advance(Stage::Confirm, Outcome::Failed("x".to_string()));
    assert_eq!(s.notice, note(Label::Error, Tint::Green, "Choose failed"));
    assert_eq!(s.next, Next::Finish);
}
