use audio_server::installation::{self, computer};
use audio_server::osc::{OscArg, OscMessage};
use audio_server::osc_output::{
    frame_args, same_message, AudioFrameData, FftData, OscTarget, Output, Speaker, TargetSource,
};

fn frame() -> AudioFrameData {
    AudioFrameData {
        avg_peak: 1,
        avg_rms: 2,
        avg_fft: FftData { lmh: [3, 4, 5], bins: [6, 7, 8, 9, 10, 11, 12, 13] },
        speakers: vec![Speaker { peak: 14, rms: 15 }, Speaker { peak: 16, rms: 17 }],
    }
}

#[test]
fn frame_arguments_layout() {
    let args = frame_args(&frame());
    let mut expected: Vec<OscArg> = (1..=13).map(OscArg::Float).collect();
    expected.extend(vec![
        OscArg::Int(0),
        OscArg::Float(14),
        OscArg::Float(15),
        OscArg::Int(1),
        OscArg::Float(16),
        OscArg::Float(17),
    ]);
    assert_eq!(args, expected);
}

#[test]
fn targets_are_added_shared_readdressed_and_removed() {
    let mut out: Output<usize> = Output::new();
    let i = installation::Id(2);
    out.apply(OscTarget::Add(i, computer::Id(0), TargetSource::New(40), String::from("/a")));
    out.apply(OscTarget::Add(
        i,
        computer::Id(1),
        TargetSource::Existing(i, computer::Id(0)),
        String::from("/b"),
    ));
    // Sharing the sender of a computer without a target adds nothing.
    out.apply(OscTarget::Add(
        i,
        computer::Id(2),
        TargetSource::Existing(installation::Id(9), computer::Id(0)),
        String::from("/c"),
    ));
    let targets = out.targets_of(i).expect("installation has targets");
    assert_eq!(targets.len(), 2);
    assert_eq!(targets[&0].osc_tx, 40);
    assert_eq!(targets[&1].osc_tx, 40);
    assert_eq!(targets[&1].osc_addr, "/b");

    out.apply(OscTarget::UpdateAddr(i, computer::Id(1), String::from("/renamed")));
    assert_eq!(out.targets_of(i).unwrap()[&1].osc_addr, "/renamed");

    out.apply(OscTarget::Remove(i, computer::Id(0)));
    assert_eq!(out.targets_of(i).unwrap().len(), 1);

    out.apply(OscTarget::RemoveInstallation(i));
    assert!(out.targets_of(i).is_none());
}

#[test]
fn identical_messages_are_not_sent_twice() {
    let mut out: Output<usize> = Output::new();
    let i = installation::Id(0);
    let c = computer::Id(0);
    out.apply(OscTarget::Add(i, c, TargetSource::New(1), String::from("/waves-at-work")));
    let args = frame_args(&frame());

    let msg = out.message_for(i, c, &args).expect("nothing was sent yet");
    assert_eq!(msg.addr, "/waves-at-work");
    assert_eq!(msg.args.as_ref(), Some(&args));
    out.record_sent(i, c, msg);
    assert!(out.message_for(i, c, &args).is_none());

    let mut changed = frame();
    changed.avg_rms = 99;
    assert!(out.message_for(i, c, &frame_args(&changed)).is_some());

    // No target, no message.
    assert!(out.message_for(i, computer::Id(5), &args).is_none());

    out.clear();
    assert!(out.targets_of(i).is_none());
}

#[test]
fn message_comparison() {
    let a = OscMessage { addr: String::from("/x"), args: Some(vec![OscArg::Int(1)]) };
    let b = OscMessage { addr: String::from("/x"), args: Some(vec![OscArg::Int(1)]) };
    let c = OscMessage { addr: String::from("/x"), args: Some(vec![OscArg::Float(1)]) };
    let d = OscMessage { addr: String::from("/x"), args: None };
    assert!(same_message(&a, &b));
    assert!(!same_message(&a, &c));
    assert!(!same_message(&a, &d));
}

#[test]
fn float_arguments_compare_as_floats() {
    let msg = |f: f32| OscMessage { addr: String::from("/x"), args: Some(vec![OscArg::Float(f.to_bits())]) };
    assert!(same_message(&msg(0.5), &msg(0.5)));
    assert!(same_message(&msg(0.0), &msg(-0.0)));
    assert!(!same_message(&msg(f32::NAN), &msg(f32::NAN)));
    assert!(!same_message(&msg(0.5), &msg(0.25)));
    let other = OscMessage { addr: String::from("/x"), args: Some(vec![OscArg::Other]) };
    assert!(!same_message(&other, &other));
}
