use dirgather::lrulist::expire_step;
use dirgather::objectpath::{dir_source, DirSource};
use dirgather::gatherer::{
    dir_priority, directory_action, done_channels, error_action, io_error_action, output_channel, DirAction,
    ErrorAction,
};
use dirgather::{dec_handles, used_handles, GathererBuilder, HandleCount};

#[test]
fn builder_defaults_and_settings() {
    let b = GathererBuilder::new();
    assert_eq!(b.gather_threads(), 16);
    assert_eq!(b.output_channels(), 1);
    assert_eq!(b.fd_limit(), 512);
    assert_eq!(b.message_batch(), 512);
    assert_eq!(b.channel_capacity(), 4096 * 16);
    let b = b
        .with_gather_threads(4)
        .with_output_channels(2)
        .with_fd_limit(100)
        .with_message_batch(8);
    assert_eq!(b.gather_threads(), 4);
    assert_eq!(b.output_channels(), 2);
    assert_eq!(b.fd_limit(), 100);
    assert_eq!(b.message_batch(), 8);
    assert_eq!(b.channel_capacity(), 4096 * 4);
    let b = b.with_inventory_backlog(1000);
    assert_eq!(b.channel_capacity(), 1000);
}

#[test]
fn directory_priorities() {
    assert_eq!(dir_priority(1, 5), ((u16::MAX - 1) as u64) << 48 | 5);
    assert!(dir_priority(3, 100) < dir_priority(2, 1));
    assert!(dir_priority(2, 1) < dir_priority(2, 2));
    assert_eq!(dir_priority(u16::MAX, 42), 42);
}

#[test]
fn traversal_decisions() {
    assert_eq!(directory_action(511, 512), DirAction::Open);
    assert_eq!(directory_action(512, 512), DirAction::Resend);
    assert_eq!(io_error_action(Some(libc::EMFILE)), ErrorAction::Resend);
    assert_eq!(io_error_action(Some(libc::ENOENT)), ErrorAction::Report);
    assert_eq!(io_error_action(None), ErrorAction::Report);
    assert_eq!(error_action(Some(24), 24), ErrorAction::Resend);
    assert_eq!(error_action(Some(23), 24), ErrorAction::Report);
    assert_eq!(error_action(None, 24), ErrorAction::Report);
    assert_eq!(output_channel(7, 3), 1);
    assert_eq!(output_channel(usize::MAX, 1), 0);
}

#[test]
fn handle_accounting() {
    let mut h = HandleCount::new();
    assert_eq!(used_handles(&h), 0);
    assert_eq!(h.inc_handles(), 0);
    assert_eq!(h.inc_handles(), 1);
    assert_eq!(used_handles(&h), 2);
    assert_eq!(dec_handles(&mut h), 2);
    assert_eq!(used_handles(&h), 1);
    assert_eq!(dec_handles(&mut h), 1);
    // the counter wraps like the atomic it models
    assert_eq!(dec_handles(&mut h), 0);
    assert_eq!(used_handles(&h), usize::MAX);
}

#[test]
fn lru_expire_step() {
    assert_eq!(expire_step(3, true), 2);
    assert_eq!(expire_step(3, false), 3);
    assert_eq!(expire_step(1, true), 0);
}

#[test]
fn dir_handle_sources() {
    assert_eq!(dir_source(true, true), DirSource::Reuse);
    assert_eq!(dir_source(true, false), DirSource::Reuse);
    assert_eq!(dir_source(false, true), DirSource::SubDirOfParent);
    assert_eq!(dir_source(false, false), DirSource::OpenPath);
}

#[test]
fn drained_goes_to_every_channel() {
    assert_eq!(done_channels(3), vec![0, 1, 2]);
    assert!(done_channels(0).is_empty());
}
