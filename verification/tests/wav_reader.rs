use audio_server::wav_reader::{
    sample_type, wrapped_start_frame, Action, Buffer, BufferInfo, Message, Reader, SampleFormat,
    SampleType, SamplesStream, NUM_BUFFERS,
};

type Msg = Message<&'static str, u32, Vec<i16>>;
type Act = Action<&'static str, u32, Vec<i16>>;

#[test]
fn a_sound_goes_from_play_to_buffers_to_end() {
    let mut reader: Reader<u32> = Reader::new();
    assert_eq!(reader.len(), 0);

    let a: Act = reader.handle(Msg::Play(7, "rain.wav"));
    assert!(matches!(a, Action::StartPlay(7, "rain.wav")));
    assert!(reader.contains(7));

    // A buffer request while the child is still opening the file is queued again.
    let a: Act = reader.handle(Msg::NextBuffer(7, vec![1, 2]));
    assert!(matches!(a, Action::Requeue(7, ref b) if *b == vec![1, 2]));

    let a: Act = reader.handle(Msg::PlayComplete(7, 100));
    assert!(matches!(a, Action::QueueBuffers(7, n) if n == NUM_BUFFERS));

    let a: Act = reader.handle(Msg::NextBuffer(7, vec![3]));
    assert!(matches!(a, Action::FillBuffer(7, 100, ref b) if *b == vec![3]));

    // While the child fills the buffer, further requests are queued again.
    let a: Act = reader.handle(Msg::NextBuffer(7, vec![4]));
    assert!(matches!(a, Action::Requeue(7, _)));

    let a: Act = reader.handle(Msg::NextBufferComplete(7, 101));
    assert!(matches!(a, Action::Idle));
    let a: Act = reader.handle(Msg::NextBuffer(7, vec![5]));
    assert!(matches!(a, Action::FillBuffer(7, 101, _)));

    let a: Act = reader.handle(Msg::End(7));
    assert!(matches!(a, Action::Idle));
    assert!(!reader.contains(7));
    assert_eq!(reader.len(), 0);

    let a: Act = reader.handle(Msg::Exit);
    assert!(matches!(a, Action::Exit));
}

#[test]
fn messages_about_untracked_sounds_are_dropped() {
    let mut reader: Reader<u32> = Reader::new();
    let a: Act = reader.handle(Msg::PlayComplete(3, 1));
    assert!(matches!(a, Action::Idle));
    let a: Act = reader.handle(Msg::NextBuffer(3, vec![]));
    assert!(matches!(a, Action::Idle));
    let a: Act = reader.handle(Msg::NextBufferComplete(3, 1));
    assert!(matches!(a, Action::Idle));
    assert!(!reader.contains(3));
}

fn buffer(samples: Vec<i16>, start: usize) -> Buffer<i16> {
    let end = start + samples.len();
    Buffer { samples, info: BufferInfo { samples_range: start..end } }
}

#[test]
fn samples_stream_reads_buffers_in_order() {
    let mut stream: SamplesStream<i16> = SamplesStream::new(2, 8, false);
    assert_eq!(stream.channels(), 2);
    assert!(!stream.has_buffer());
    // Before any buffer arrives the whole WAV remains: 8 samples of 2 channels.
    assert_eq!(stream.remaining_frames(), Some(4));
    assert_eq!(stream.take_sample(), None);

    stream.receive(buffer(vec![10, 11, 12, 13], 0));
    assert_eq!(stream.remaining_frames(), Some(4));
    assert_eq!(stream.take_sample(), Some(10));
    assert_eq!(stream.take_sample(), Some(11));
    assert_eq!(stream.remaining_frames(), Some(3));
    assert!(stream.take_spent_buffer().is_none());
    assert_eq!(stream.take_sample(), Some(12));
    assert_eq!(stream.take_sample(), Some(13));
    assert_eq!(stream.take_sample(), None);

    let spent = stream.take_spent_buffer().expect("the buffer is spent");
    assert_eq!(spent.samples, vec![10, 11, 12, 13]);
    assert!(!stream.has_buffer());

    stream.receive(buffer(vec![14, 15, 16, 17], 4));
    assert_eq!(stream.remaining_frames(), Some(2));
    assert_eq!(stream.take_sample(), Some(14));
}

#[test]
fn looped_streams_never_end() {
    let stream: SamplesStream<i16> = SamplesStream::new(1, 100, true);
    assert_eq!(stream.remaining_frames(), None);
}

#[test]
fn supported_sample_types() {
    assert_eq!(sample_type(SampleFormat::Float, 32), Some(SampleType::F32));
    assert_eq!(sample_type(SampleFormat::Int, 16), Some(SampleType::I16));
    assert_eq!(sample_type(SampleFormat::Int, 24), None);
    assert_eq!(sample_type(SampleFormat::Float, 64), None);
}

#[test]
fn start_frames_wrap_around_the_file() {
    assert_eq!(wrapped_start_frame(5, 10), 5);
    assert_eq!(wrapped_start_frame(25, 10), 5);
    assert_eq!(wrapped_start_frame(0, 3), 0);
}
