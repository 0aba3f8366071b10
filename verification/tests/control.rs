use pixl::batch::{run_outcome, worker_count, BatchControl, RunOutcome, Step};
use pixl::models::{image_seed, BaseModel, GenError, PendingGenerator};
use pixl::progress::HubProgress;
use pixl::tokens::fit_token_ids;
use pixl::tui::{key_action, next_status, prompt_edit, Action, Key, PromptEdit, Status, StatusEvent};

#[test]
fn fit_pads_or_cuts_with_terminator() {
    assert_eq!(fit_token_ids(vec![1, 2, 3], 5, 0), vec![1, 2, 3, 0, 0]);
    assert_eq!(fit_token_ids(vec![1, 2, 3, 4], 3, 9), vec![1, 2, 9]);
    assert_eq!(fit_token_ids(vec![1], 0, 9), Vec::<u32>::new());
    assert_eq!(fit_token_ids(vec![4, 5], 2, 9), vec![4, 5]);
}

#[test]
fn progress_coalesces_updates() {
    let mut p = HubProgress::new("unet/diffusion.safetensors");
    assert_eq!(p.file, "diffusion.safetensors");
    assert!(p.init(10_000_000, "a/b.bin"));
    assert_eq!(p.file, "b.bin");
    assert!(!p.update(1_000_000));
    assert!(p.update(3_000_000));
    assert_eq!(p.last, 4_000_000);
    assert!(!p.update(1));
    assert!(p.update(5_999_999));
    assert!(p.finish());
    assert_eq!(p.done, 10_000_000);
}

#[test]
fn batch_hands_out_global_indices() {
    let mut b = BatchControl::new();
    assert_eq!(b.begin(3), 0);
    assert_eq!(b.next_step(false, |_| false), Step::Render(0));
    assert_eq!(b.next_step(false, |i| i == 1), Step::Skip(1));
    assert_eq!(b.next_step(false, |_| false), Step::Render(2));
    assert_eq!(b.next_step(false, |_| false), Step::Stop);
    assert_eq!(b.begin(2), 3);
    assert_eq!(b.next_step(true, |_| false), Step::Stop);
    assert_eq!(b.next_step(false, |_| false), Step::Render(3));
    assert!(!b.record_failure(true));
    assert_eq!(b.next_step(false, |_| false), Step::Stop);
    assert_eq!(b.begin(1), 4);
    assert!(b.record_failure(false));
    assert_eq!(b.next_step(false, |_| false), Step::Render(4));
}

#[test]
fn workers_and_outcomes() {
    assert_eq!(worker_count(3, Some(8)), 3);
    assert_eq!(worker_count(0, Some(8)), 2);
    assert_eq!(worker_count(0, Some(1)), 1);
    assert_eq!(worker_count(0, None), 1);
    assert_eq!(run_outcome(true, 3), RunOutcome::Cancelled);
    assert_eq!(run_outcome(false, 2), RunOutcome::Failed(2));
    assert_eq!(run_outcome(false, 0), RunOutcome::Done);
}

#[test]
fn models_and_seeds() {
    assert_eq!(BaseModel::SdxlTurbo.repo(), "stabilityai/sdxl-turbo");
    assert_eq!(BaseModel::Sdxl.repo(), "stabilityai/stable-diffusion-xl-base-1.0");
    assert_eq!(BaseModel::Sdxl.label(), "SDXL");
    assert_eq!(BaseModel::SdxlTurbo.label(), "SDXL-Turbo");
    assert_eq!(image_seed(10, 2), 12);
    assert!(matches!(PendingGenerator.unavailable(), GenError::NotImplemented));
}

#[test]
fn keys_map_to_actions() {
    assert_eq!(key_action(Key::Left, false, false), Action::Prev);
    assert_eq!(key_action(Key::Char('l'), false, false), Action::Next);
    assert_eq!(key_action(Key::Char('G'), false, false), Action::Last);
    assert_eq!(key_action(Key::Char(' '), false, false), Action::Save);
    assert_eq!(key_action(Key::Char('c'), false, false), Action::Cancel);
    assert_eq!(key_action(Key::Char('c'), true, true), Action::Quit);
    assert_eq!(key_action(Key::Char('q'), false, true), Action::EditorKey);
    assert_eq!(key_action(Key::Esc, false, false), Action::Quit);
    assert_eq!(key_action(Key::Char('z'), false, false), Action::Ignore);
}

#[test]
fn prompt_editor_edits_and_submits() {
    assert_eq!(prompt_edit("ab", Key::Char('c')), PromptEdit::Editing("abc".into()));
    assert_eq!(prompt_edit("ab", Key::Backspace), PromptEdit::Editing("a".into()));
    assert_eq!(prompt_edit("", Key::Backspace), PromptEdit::Editing("".into()));
    assert_eq!(prompt_edit("  hi ", Key::Enter), PromptEdit::Submit("hi".into()));
    assert_eq!(prompt_edit("   ", Key::Enter), PromptEdit::Close);
    assert_eq!(prompt_edit("x", Key::Esc), PromptEdit::Close);
    assert_eq!(prompt_edit("x", Key::Left), PromptEdit::Editing("x".into()));
}

#[test]
fn status_follows_events() {
    let s = next_status(Status::Loading, StatusEvent::Loaded);
    assert_eq!(s, Status::Idle);
    let s = next_status(s, StatusEvent::BatchStarted { total: 4 });
    assert_eq!(s, Status::Generating { done: 0, total: 4, step: 0, steps: 0 });
    let s = next_status(s, StatusEvent::Step { step: 3, steps: 8 });
    let s = next_status(s, StatusEvent::ImageReady);
    assert_eq!(s, Status::Generating { done: 1, total: 4, step: 3, steps: 8 });
    assert_eq!(next_status(Status::Idle, StatusEvent::ImageReady), Status::Idle);
    assert_eq!(next_status(s, StatusEvent::BatchDone), Status::Idle);
    assert_eq!(
        next_status(Status::Idle, StatusEvent::Error("boom".into())),
        Status::Error("boom".into())
    );
}

#[test]
fn s_opens_settings_and_x_discards() {
    assert_eq!(key_action(Key::Char('s'), false, false), Action::Settings);
    assert_eq!(key_action(Key::Char('x'), false, false), Action::Discard);
    assert_eq!(key_action(Key::Char('s'), false, true), Action::EditorKey);
}

#[test]
fn batch_indices_stay_fresh_across_batches() {
    let mut b = BatchControl::new();
    let mut seen = Vec::new();
    for count in [2u32, 0, 3] {
        let start = b.begin(count);
        assert_eq!(start, seen.len());
        loop {
            match b.next_step(false, |i| i == 3) {
                Step::Stop => break,
                Step::Skip(i) | Step::Render(i) => seen.push(i),
            }
        }
    }
    assert_eq!(seen, vec![0, 1, 2, 3, 4]);
}
