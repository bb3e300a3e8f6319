use trixie::frame::{frame_duration_for, FrameClock, RenderOutcome};

#[test]
fn frame_duration_follows_the_slower_of_target_and_connector() {
    assert_eq!(frame_duration_for(None, 60), 16_666);
    assert_eq!(frame_duration_for(Some(30), 60), 33_333);
    assert_eq!(frame_duration_for(Some(144), 60), 16_666);
    assert_eq!(frame_duration_for(Some(0), 60), 1_000_000);
    assert_eq!(frame_duration_for(None, 0), 1_000_000);
}

#[test]
fn pending_frame_blocks_rendering_until_vblank() {
    let mut c = FrameClock::new(1_000, 16_666);
    assert!(!c.should_render(999));
    assert!(c.should_render(1_000));
    c.rendered(1_000, RenderOutcome::Queued);
    assert!(c.pending_frame);
    assert_eq!(c.next_frame_time, 17_666);
    assert!(!c.should_render(20_000));
    c.frame_finish();
    assert!(!c.pending_frame);
    assert!(c.should_render(20_000));
}

#[test]
fn empty_and_failed_frames_are_not_pending() {
    let mut c = FrameClock::new(0, 10);
    c.rendered(0, RenderOutcome::Empty);
    assert!(!c.pending_frame);
    assert_eq!(c.next_frame_time, 10);
    c.rendered(10, RenderOutcome::Failed);
    assert!(!c.pending_frame);
    assert_eq!(c.next_frame_time, 20);
}

#[test]
fn late_frame_snaps_forward() {
    let mut c = FrameClock::new(0, 100);
    // the due time plus one frame is still ahead
    c.rendered(50, RenderOutcome::Empty);
    assert_eq!(c.next_frame_time, 100);
    // five seconds late: no catching up
    c.rendered(5_000_000, RenderOutcome::Empty);
    assert_eq!(c.next_frame_time, 5_000_100);
}

#[test]
fn sixty_frames_in_a_second_at_sixty_hertz() {
    let dur = frame_duration_for(None, 60);
    let mut c = FrameClock::new(dur, dur);
    let mut queued = 0;
    let mut submitted = 0;
    let mut vblank_at: Option<u64> = None;
    let mut now = 0u64;
    while now <= 1_000_000 {
        if vblank_at == Some(now) {
            c.frame_finish();
            submitted += 1;
            vblank_at = None;
        }
        if c.should_render(now) {
            c.rendered(now, RenderOutcome::Queued);
            queued += 1;
            assert!(queued - submitted <= 1);
            vblank_at = Some(now + 10_000);
        }
        now += 1;
    }
    assert_eq!(queued, 60);
    // the schedule did not drift by a frame
    assert!(c.next_frame_time - 60 * dur <= dur);
}

#[test]
fn pause_and_resume_do_not_burst() {
    let mut c = FrameClock::new(0, 16_666);
    c.rendered(0, RenderOutcome::Queued);
    c.pause();
    assert!(!c.pending_frame);
    let resume_at = 5_000_000;
    c.resume(resume_at);
    assert_eq!(c.next_frame_time, resume_at + 16_666);
    assert!(!c.should_render(resume_at));
    assert!(c.should_render(resume_at + 16_666));
    c.rendered(resume_at + 16_666, RenderOutcome::Queued);
    assert!(!c.should_render(resume_at + 16_667));
    assert_eq!(c.next_frame_time, resume_at + 2 * 16_666);
}
