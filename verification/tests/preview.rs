use parkhay::cli::ParkhayCli;
use parkhay::error::FormatFault;
use parkhay::error::IoFault;
use parkhay::error::ParkhayError;
use parkhay::reader::read_region;
use parkhay::reader::serve_slot;
use parkhay::reader::ReadOutcome;
use parkhay::reader::ReadRequest;
use parkhay::reader::RegionReader;
use parkhay::slot::SharedSlot;
use parkhay::slot::Slot;
use parkhay::views::layout::components::CollapsibleSectionIcon;
use parkhay::views::layout::components::LabeledValue;
use parkhay::views::layout::data_renderer::DataRenderer;
use parkhay::views::layout::data_renderer::PreviewAction;
use parkhay::views::layout::data_renderer::PreviewState;
use parkhay::views::layout::data_renderer::DATA_PREVIEW_APPROX_ROW_COUNT;
use parkhay::views::layout::footer_renderer::FooterRenderer;
use parkhay::metadata::KeyValue;

#[test]
fn preview_steps() {
    assert_eq!(DataRenderer::step(PreviewState::Hidden, false, false), PreviewState::Hidden);
    assert_eq!(DataRenderer::step(PreviewState::Hidden, false, true), PreviewState::Hidden);
    assert_eq!(DataRenderer::step(PreviewState::Hidden, true, false), PreviewState::Pending);
    assert_eq!(DataRenderer::step(PreviewState::Hidden, true, true), PreviewState::Visible);
    assert_eq!(DataRenderer::step(PreviewState::Visible, false, true), PreviewState::Visible);
    assert_eq!(DataRenderer::step(PreviewState::Visible, true, true), PreviewState::Hidden);
    assert_eq!(DataRenderer::step(PreviewState::Visible, true, false), PreviewState::Hidden);
    assert_eq!(DataRenderer::step(PreviewState::Pending, false, false), PreviewState::Pending);
    assert_eq!(DataRenderer::step(PreviewState::Pending, true, false), PreviewState::Pending);
    assert_eq!(DataRenderer::step(PreviewState::Pending, false, true), PreviewState::Visible);
    assert_eq!(DataRenderer::step(PreviewState::Pending, true, true), PreviewState::Visible);
}

#[test]
fn preview_never_takes_an_invalid_step() {
    for current in [PreviewState::Hidden, PreviewState::Visible, PreviewState::Pending] {
        for clicked in [false, true] {
            for filled in [false, true] {
                let (next, action) = DataRenderer::advance(current, clicked, filled);
                assert_eq!(next, DataRenderer::step(current, clicked, filled));
                assert!(!(current == PreviewState::Pending && next == PreviewState::Hidden));
                assert!(!(current == PreviewState::Visible && next == PreviewState::Pending));
                assert_eq!(action, DataRenderer::action(current, next));
                if action == PreviewAction::Fetch {
                    assert!(current == PreviewState::Hidden && clicked && !filled);
                }
            }
        }
    }
}

#[test]
fn preview_actions() {
    assert_eq!(DataRenderer::action(PreviewState::Hidden, PreviewState::Visible), PreviewAction::Show);
    assert_eq!(DataRenderer::action(PreviewState::Pending, PreviewState::Visible), PreviewAction::Show);
    assert_eq!(DataRenderer::action(PreviewState::Visible, PreviewState::Visible), PreviewAction::Show);
    assert_eq!(DataRenderer::action(PreviewState::Hidden, PreviewState::Pending), PreviewAction::Fetch);
    assert_eq!(DataRenderer::action(PreviewState::Visible, PreviewState::Hidden), PreviewAction::Idle);
    assert_eq!(DataRenderer::action(PreviewState::Pending, PreviewState::Pending), PreviewAction::Idle);
    assert_eq!(DataRenderer::action(PreviewState::Hidden, PreviewState::Hidden), PreviewAction::Idle);
}

#[test]
fn preview_text_is_lower_case_hex() {
    let bytes = [0x00, 0xff, 0x10, 0x0a, 0xb7, 0x9c];
    assert_eq!(DataRenderer::preview(&bytes, 1), ("00ff100ab79c".to_string(), 0));
    assert_eq!(DataRenderer::preview(&[], 4), (String::new(), 0));
    assert_eq!(DataRenderer::preview(&bytes, 0), (String::new(), 6));
    let all: Vec<u8> = (0..=255).collect();
    let expected: String = all.iter().map(|b| format!("{b:02x}")).collect();
    assert_eq!(DataRenderer::preview(&all, 100), (expected, 0));
}

#[test]
fn preview_is_cut_after_its_rows() {
    assert_eq!(DATA_PREVIEW_APPROX_ROW_COUNT, 15);
    let bytes = vec![0x5a; 100];
    let (text, left_out) = DataRenderer::preview(&bytes, 2);
    assert_eq!(text, "5a".repeat(30));
    assert_eq!(left_out, 70);
    let (text, left_out) = DataRenderer::preview(&bytes[..30], 2);
    assert_eq!(text, "5a".repeat(30));
    assert_eq!(left_out, 0);
    let (text, left_out) = DataRenderer::preview(&bytes[..31], 2);
    assert_eq!(text.len(), 60);
    assert_eq!(left_out, 1);
}

#[test]
fn missing_values_show_as_not_available() {
    let pairs = vec![
        KeyValue { key: "a".to_string(), value: Some("1".to_string()) },
        KeyValue { key: "b".to_string(), value: None },
        KeyValue { key: "".to_string(), value: Some("".to_string()) },
    ];
    let rows = FooterRenderer::key_value_rows(&pairs);
    let shown: Vec<(&str, &str)> =
        rows.iter().map(|r| (r.label.as_str(), r.value.as_str())).collect();
    assert_eq!(shown, vec![("a", "1"), ("b", "N/A"), ("", "")]);
    assert_eq!(FooterRenderer::key_value_rows(&vec![]).len(), 0);
    let row = LabeledValue::optional("Created By", &None);
    assert_eq!((row.label.as_str(), row.value.as_str()), ("Created By", "N/A"));
    let row = LabeledValue::new("Version", "2");
    assert_eq!((row.label.as_str(), row.value.as_str()), ("Version", "2"));
}

#[test]
fn plain_types_hold_what_they_are_given() {
    let cli = ParkhayCli { path: "some/file.parquet".to_string() };
    assert_eq!(cli.path, "some/file.parquet");
    assert_ne!(CollapsibleSectionIcon::Default, CollapsibleSectionIcon::Blank);
    assert_ne!(CollapsibleSectionIcon::Blank, CollapsibleSectionIcon::Circle);
}

#[test]
fn slot_is_filled_once() {
    let mut slot = Slot::new();
    assert!(!slot.is_filled());
    assert_eq!(slot.try_get(), None);
    assert!(slot.fill_once(vec![1, 2, 3]));
    assert!(slot.is_filled());
    assert_eq!(slot.try_get(), Some(&vec![1, 2, 3]));
    assert!(!slot.fill_once(vec![9]));
    assert_eq!(slot.try_get(), Some(&vec![1, 2, 3]));
}

#[test]
fn shared_slot_takes_bytes_of_its_length_once() {
    let slot = SharedSlot::new(3);
    let other = slot.share();
    assert_eq!(slot.length(), 3);
    assert_eq!(other.length(), 3);
    assert!(!slot.fill_once(vec![1, 2]));
    assert!(!slot.fill_once(vec![1, 2, 3, 4]));
    assert!(!other.is_filled());
    assert!(other.fill_once(vec![1, 2, 3]));
    assert!(slot.is_filled());
    assert!(!slot.fill_once(vec![4, 5, 6]));
    assert_eq!(slot.try_get(), Some(vec![1, 2, 3]));
    assert_eq!(other.try_get(), Some(vec![1, 2, 3]));
}

#[test]
fn read_region_reads_exactly_the_interval() {
    let file: Vec<u8> = (0..20).collect();
    assert_eq!(read_region(&file, (3, 6)), Ok(vec![3, 4, 5, 6]));
    assert_eq!(read_region(&file, (0, 0)), Ok(vec![0]));
    assert_eq!(read_region(&file, (19, 19)), Ok(vec![19]));
    assert_eq!(read_region(&file, (0, 19)), Ok(file.clone()));
    let short = Err(ParkhayError::Io(IoFault::ShortRead));
    assert_eq!(read_region(&file, (19, 20)), short);
    assert_eq!(read_region(&file, (20, 20)), short);
    assert_eq!(read_region(&file, (6, 3)), short);
    assert_eq!(read_region(&file, (0, u64::MAX)), short);
    assert_eq!(read_region(&[], (0, 0)), short);
}

#[test]
fn serve_slot_skips_a_filled_slot() {
    let file: Vec<u8> = (0..20).collect();
    let mut slot = Slot::new();
    assert_eq!(
        serve_slot(&file, (18, 20), &mut slot),
        ReadOutcome::Failed(ParkhayError::Io(IoFault::ShortRead))
    );
    assert_eq!(slot.try_get(), None);
    assert_eq!(serve_slot(&file, (5, 7), &mut slot), ReadOutcome::Filled);
    assert_eq!(slot.try_get(), Some(&vec![5, 6, 7]));
    assert_eq!(serve_slot(&file, (5, 7), &mut slot), ReadOutcome::Skipped);
    assert_eq!(serve_slot(&file, (18, 20), &mut slot), ReadOutcome::Skipped);
    assert_eq!(serve_slot(&[], (0, 1), &mut slot), ReadOutcome::Skipped);
    assert_eq!(slot.try_get(), Some(&vec![5, 6, 7]));
}

#[test]
fn reader_refuses_a_request_that_does_not_fit_its_slot() {
    let reader = RegionReader::new((0..20).collect());
    let slot = SharedSlot::new(3);
    let protocol = ReadOutcome::Failed(ParkhayError::Protocol);
    assert_eq!(reader.serve(&ReadRequest((5, 8), slot.share())), protocol);
    assert_eq!(reader.serve(&ReadRequest((5, 6), slot.share())), protocol);
    assert_eq!(reader.serve(&ReadRequest((7, 5), slot.share())), protocol);
    assert_eq!(reader.serve(&ReadRequest((0, u64::MAX), slot.share())), protocol);
    assert!(!slot.is_filled());
    assert_eq!(
        reader.serve(&ReadRequest((18, 20), slot.share())),
        ReadOutcome::Failed(ParkhayError::Io(IoFault::ShortRead))
    );
    assert!(!slot.is_filled());
    assert_eq!(reader.serve(&ReadRequest((5, 7), slot.share())), ReadOutcome::Filled);
    assert_eq!(slot.try_get(), Some(vec![5, 6, 7]));
    assert_eq!(reader.serve(&ReadRequest((18, 20), slot.share())), ReadOutcome::Skipped);
    let empty = SharedSlot::new(0);
    assert_eq!(reader.serve(&ReadRequest((5, 4), empty.share())), protocol);
}

#[test]
fn each_failure_has_its_message() {
    let all = [
        ParkhayError::Io(IoFault::ShortRead),
        ParkhayError::Io(IoFault::Seek),
        ParkhayError::Format(FormatFault::StartMagic),
        ParkhayError::Format(FormatFault::EndMagic),
        ParkhayError::Format(FormatFault::Footer),
        ParkhayError::Format(FormatFault::Schema),
        ParkhayError::Format(FormatFault::Overflow),
        ParkhayError::Format(FormatFault::PageHeader),
        ParkhayError::Format(FormatFault::Overshoot),
        ParkhayError::Format(FormatFault::Overlap),
        ParkhayError::Protocol,
    ];
    for (k, e) in all.iter().enumerate() {
        assert_eq!(e.is_format(), matches!(e, ParkhayError::Format(_)));
        for other in &all[..k] {
            assert_ne!(e.message(), other.message());
        }
        if matches!(e, ParkhayError::Io(_)) {
            assert!(e.message().starts_with("unreadable file"));
        }
    }
    assert_eq!(
        ParkhayError::Format(FormatFault::StartMagic).message(),
        "not a valid container: wrong start magic"
    );
}
