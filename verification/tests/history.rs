use memoir::daemon::{
    listing_should_continue, run_daemon, run_process_list_daemon, Sampler, SamplerAction,
    SamplerEvent, WaitOutcome, CLEANUP_INTERVAL,
};
use memoir::history::HistoryBuffer;
use memoir::process::{
    list_processes, memory_mb, same_identity, CurrentProcesses, IdentityCache, Process, RawProcess,
};
use std::sync::Arc;

fn process(pid: u32, name: &str, commandline: &str) -> Process {
    Process { pid, name: name.to_string(), commandline: commandline.to_string() }
}

fn raw(pid: u32, name: &str, command_line: &str, resident_pages: u64) -> RawProcess {
    RawProcess {
        pid,
        name: Some(name.to_string()),
        command_line: Some(command_line.to_string()),
        resident_pages,
    }
}

fn empty_snapshot(timestamp: u128) -> CurrentProcesses {
    CurrentProcesses { timestamp, entries: Vec::new() }
}

fn timestamps(buffer: &HistoryBuffer) -> Vec<u128> {
    buffer.read().iter().map(|snapshot| snapshot.timestamp).collect()
}

#[test]
fn buffer_keeps_the_last_appends() {
    let mut buffer = HistoryBuffer::new(3);
    assert_eq!(buffer.capacity(), 3);
    assert_eq!(buffer.len(), 0);
    for (n, stamp) in [10u128, 20, 30, 40, 50].into_iter().enumerate() {
        let evicted = buffer.append(empty_snapshot(stamp));
        assert_eq!(buffer.len(), std::cmp::min(n + 1, 3));
        assert_eq!(evicted.map(|gone| gone.timestamp), if n < 3 { None } else { Some(stamp - 30) });
    }
    assert_eq!(timestamps(&buffer), vec![30, 40, 50]);
}

#[test]
fn buffer_below_its_capacity_keeps_all() {
    let mut buffer = HistoryBuffer::new(10);
    assert!(buffer.append(empty_snapshot(1)).is_none());
    assert!(buffer.append(empty_snapshot(2)).is_none());
    assert_eq!(timestamps(&buffer), vec![1, 2]);
}

#[test]
fn buffer_of_one_keeps_the_newest() {
    let mut buffer = HistoryBuffer::new(1);
    assert!(buffer.append(empty_snapshot(1)).is_none());
    assert_eq!(buffer.append(empty_snapshot(2)).map(|gone| gone.timestamp), Some(1));
    assert_eq!(timestamps(&buffer), vec![2]);
}

#[test]
fn buffer_without_capacity_keeps_nothing() {
    let mut buffer = HistoryBuffer::new(0);
    assert_eq!(buffer.append(empty_snapshot(7)).map(|gone| gone.timestamp), Some(7));
    assert_eq!(buffer.len(), 0);
    assert!(buffer.read().is_empty());
}

#[test]
fn equal_candidates_share_one_record() {
    let mut cache = IdentityCache::new();
    let first = cache.intern(process(1, "init", "/sbin/init"));
    let second = cache.intern(process(1, "init", "/sbin/init"));
    assert!(Arc::ptr_eq(&first, &second));
    assert_eq!(cache.holders_of(&process(1, "init", "/sbin/init")), 2);
    assert!(cache.is_cached(&process(1, "init", "/sbin/init")));
    assert_eq!(first.pid, 1);
    assert_eq!(first.name, "init");
    assert_eq!(first.commandline, "/sbin/init");
}

#[test]
fn candidates_that_differ_in_one_field_get_a_record_each() {
    let mut cache = IdentityCache::new();
    let base = cache.intern(process(1, "init", "/sbin/init"));
    let other_pid = cache.intern(process(2, "init", "/sbin/init"));
    let other_name = cache.intern(process(1, "systemd", "/sbin/init"));
    let other_line = cache.intern(process(1, "init", "/sbin/init --debug"));
    assert!(!Arc::ptr_eq(&base, &other_pid));
    assert!(!Arc::ptr_eq(&base, &other_name));
    assert!(!Arc::ptr_eq(&base, &other_line));
    assert!(!same_identity(&base, &other_pid));
    assert!(!same_identity(&base, &other_name));
    assert!(!same_identity(&base, &other_line));
    assert!(same_identity(&base, &process(1, "init", "/sbin/init")));
    for found in [&base, &other_pid, &other_name, &other_line] {
        assert_eq!(cache.holders_of(found), 1);
    }
}

#[test]
fn prune_drops_what_nobody_holds() {
    let mut cache = IdentityCache::new();
    let kept = cache.intern(process(1, "kept", "kept"));
    let gone = cache.intern(process(2, "gone", "gone"));
    cache.intern(process(2, "gone", "gone"));
    cache.release(&gone);
    cache.prune();
    assert!(cache.is_cached(&gone));
    assert_eq!(cache.holders_of(&gone), 1);
    cache.release(&gone);
    assert!(cache.is_cached(&gone));
    assert_eq!(cache.holders_of(&gone), 0);
    cache.prune();
    assert!(!cache.is_cached(&gone));
    assert!(cache.is_cached(&kept));
    assert_eq!(cache.holders_of(&kept), 1);
}

#[test]
fn release_of_an_unknown_identity_changes_nothing() {
    let mut cache = IdentityCache::new();
    cache.intern(process(1, "a", "a"));
    cache.release(&process(9, "z", "z"));
    assert!(!cache.is_cached(&process(9, "z", "z")));
    cache.release(&process(1, "a", "a"));
    cache.release(&process(1, "a", "a"));
    assert_eq!(cache.holders_of(&process(1, "a", "a")), 0);
    assert!(cache.is_cached(&process(1, "a", "a")));
}

#[test]
fn megabytes_round_down_and_saturate() {
    assert_eq!(memory_mb(1000, 4096), 4);
    assert_eq!(memory_mb(244, 4096), 0);
    assert_eq!(memory_mb(245, 4096), 1);
    assert_eq!(memory_mb(1_000_000, 1), 1);
    assert_eq!(memory_mb(0, 4096), 0);
    assert_eq!(memory_mb(u64::MAX, 1), u64::MAX / 1_000_000);
    assert_eq!(memory_mb(u64::MAX, 1_000_000), u64::MAX);
    assert_eq!(memory_mb(u64::MAX, u64::MAX), u64::MAX);
}

#[test]
fn a_sample_has_the_processes_that_hold_memory() {
    let mut cache = IdentityCache::new();
    let listing = vec![
        raw(1, "init", "/sbin/init", 1000),
        raw(2, "kthreadd", "", 0),
        RawProcess { pid: 3, name: None, command_line: None, resident_pages: 500 },
        raw(1, "init", "/sbin/init", 250),
    ];
    let snapshot = list_processes(&mut cache, 1234, 4096, listing);
    assert_eq!(snapshot.timestamp, 1234);
    assert_eq!(snapshot.entries.len(), 3);
    assert_eq!(snapshot.entries[0].process.pid, 1);
    assert_eq!(snapshot.entries[0].memory_mb, 4);
    assert_eq!(snapshot.entries[1].process.pid, 3);
    assert_eq!(snapshot.entries[1].process.name, "?");
    assert_eq!(snapshot.entries[1].process.commandline, "?");
    assert_eq!(snapshot.entries[1].memory_mb, 2);
    assert_eq!(snapshot.entries[2].memory_mb, 1);
    assert!(Arc::ptr_eq(&snapshot.entries[0].process, &snapshot.entries[2].process));
    assert_eq!(cache.holders_of(&process(1, "init", "/sbin/init")), 2);
    assert_eq!(cache.holders_of(&process(3, "?", "?")), 1);
    assert!(!cache.is_cached(&process(2, "kthreadd", "")));
}

#[test]
fn only_a_timeout_continues_the_listing() {
    assert!(listing_should_continue(WaitOutcome::TimedOut));
    assert!(!listing_should_continue(WaitOutcome::StopRequested));
    assert!(!listing_should_continue(WaitOutcome::Disconnected));
}

fn tick(sampler: &mut Sampler, now: u128, listing: Vec<RawProcess>) {
    assert_eq!(
        run_process_list_daemon(sampler, SamplerEvent::Waited(WaitOutcome::TimedOut)),
        SamplerAction::ListProcesses
    );
    assert_eq!(
        run_process_list_daemon(sampler, SamplerEvent::Listed { now, page_size: 4096, listing }),
        SamplerAction::Wait { period_ms: 1000 }
    );
}

#[test]
fn the_sampler_fills_and_evicts() {
    let mut sampler = run_daemon(2);
    assert_eq!(sampler.action(), SamplerAction::Wait { period_ms: 1000 });
    tick(&mut sampler, 1000, vec![raw(1, "a", "a", 1000), raw(2, "b", "b", 1000)]);
    tick(&mut sampler, 2000, vec![raw(1, "a", "a", 2000)]);
    assert_eq!(sampler.read().len(), 2);
    assert_eq!(sampler.references(&process(1, "a", "a")), 2);
    assert_eq!(sampler.references(&process(2, "b", "b")), 1);
    tick(&mut sampler, 3000, vec![raw(3, "c", "c", 1000)]);
    let stamps: Vec<u128> = sampler.read().iter().map(|snapshot| snapshot.timestamp).collect();
    assert_eq!(stamps, vec![2000, 3000]);
    assert_eq!(sampler.references(&process(1, "a", "a")), 1);
    assert_eq!(sampler.references(&process(2, "b", "b")), 0);
    assert_eq!(sampler.references(&process(3, "c", "c")), 1);
    // Not pruned yet: the record is still there, held by nobody.
    assert!(sampler.is_cached(&process(2, "b", "b")));
    // The entries of the history point at the shared records.
    assert_eq!(sampler.read()[0].entries[0].process.name, "a");
    assert_eq!(sampler.read()[0].entries[0].memory_mb, 8);
}

#[test]
fn the_sampler_prunes_on_every_hundredth_tick() {
    let mut sampler = Sampler::new(1);
    tick(&mut sampler, 1, vec![raw(1, "early", "early", 1)]);
    for n in 2..CLEANUP_INTERVAL {
        tick(&mut sampler, n as u128, vec![raw(2, "late", "late", 1)]);
        assert!(sampler.is_cached(&process(1, "early", "early")));
        assert_eq!(sampler.references(&process(1, "early", "early")), 0);
    }
    tick(&mut sampler, 100, vec![raw(2, "late", "late", 1)]);
    assert!(!sampler.is_cached(&process(1, "early", "early")));
    assert!(sampler.is_cached(&process(2, "late", "late")));
    assert_eq!(sampler.references(&process(2, "late", "late")), 1);
    // The counter starts over: the next pruning is a hundred ticks away.
    tick(&mut sampler, 101, vec![raw(3, "third", "third", 1)]);
    assert!(sampler.is_cached(&process(2, "late", "late")));
    assert_eq!(sampler.references(&process(2, "late", "late")), 0);
}

#[test]
fn a_stop_ends_the_sampler() {
    let mut sampler = Sampler::new(5);
    assert_eq!(
        run_process_list_daemon(&mut sampler, SamplerEvent::Waited(WaitOutcome::StopRequested)),
        SamplerAction::Finish
    );
    // Nothing moves a sampler that has stopped.
    assert_eq!(
        run_process_list_daemon(&mut sampler, SamplerEvent::Waited(WaitOutcome::TimedOut)),
        SamplerAction::Finish
    );
    assert_eq!(
        run_process_list_daemon(
            &mut sampler,
            SamplerEvent::Listed { now: 1, page_size: 1, listing: vec![raw(1, "a", "a", 1)] }
        ),
        SamplerAction::Finish
    );
    assert_eq!(sampler.read().len(), 0);
}

#[test]
fn a_lost_peer_ends_the_sampler() {
    let mut sampler = Sampler::new(5);
    assert_eq!(
        run_process_list_daemon(&mut sampler, SamplerEvent::Waited(WaitOutcome::Disconnected)),
        SamplerAction::Finish
    );
}

#[test]
fn a_failed_listing_is_fatal() {
    let mut sampler = Sampler::new(5);
    run_process_list_daemon(&mut sampler, SamplerEvent::Waited(WaitOutcome::TimedOut));
    assert_eq!(
        run_process_list_daemon(&mut sampler, SamplerEvent::ListingFailed),
        SamplerAction::Fail
    );
    assert_eq!(
        run_process_list_daemon(&mut sampler, SamplerEvent::Waited(WaitOutcome::TimedOut)),
        SamplerAction::Fail
    );
}

#[test]
fn an_event_out_of_turn_changes_nothing() {
    let mut sampler = Sampler::new(5);
    assert_eq!(
        run_process_list_daemon(
            &mut sampler,
            SamplerEvent::Listed { now: 1, page_size: 1, listing: vec![raw(1, "a", "a", 1)] }
        ),
        SamplerAction::Wait { period_ms: 1000 }
    );
    assert_eq!(sampler.read().len(), 0);
    assert_eq!(
        run_process_list_daemon(&mut sampler, SamplerEvent::ListingFailed),
        SamplerAction::Wait { period_ms: 1000 }
    );
}

#[test]
fn an_entry_and_a_sample_as_text() {
    let mut cache = IdentityCache::new();
    let snapshot = list_processes(
        &mut cache,
        1700000000000,
        4096,
        vec![raw(1, "init", "/sbin/init", 1000), raw(20, "sh", "sh -c ls", 500)],
    );
    assert_eq!(snapshot.entries[0].to_text(), "<1 | init | 4 | /sbin/init>");
    assert_eq!(
        snapshot.to_text(),
        "--- 1700000000000 ---\n    <1 | init | 4 | /sbin/init>\n    <20 | sh | 2 | sh -c ls>\n"
    );
    assert_eq!(empty_snapshot(0).to_text(), "--- 0 ---\n");
}

#[test]
fn the_cache_grows_by_identities_not_by_handles() {
    let mut cache = IdentityCache::new();
    assert_eq!(cache.len(), 0);
    let first = cache.intern(process(1, "a", "x"));
    assert_eq!(cache.len(), 1);
    let again = cache.intern(process(1, "a", "x"));
    assert_eq!(cache.len(), 1);
    assert!(Arc::ptr_eq(&first, &again));
    let other_line = cache.intern(process(1, "a", "y"));
    let other_pid = cache.intern(process(2, "a", "x"));
    assert_eq!(cache.len(), 3);
    assert!(!Arc::ptr_eq(&first, &other_line));
    assert!(!Arc::ptr_eq(&first, &other_pid));
    cache.release(&other_line);
    cache.prune();
    assert_eq!(cache.len(), 2);
}

#[test]
fn a_sample_takes_the_record_that_the_cache_has() {
    let mut cache = IdentityCache::new();
    let known = cache.intern(process(7, "sh", "sh -c ls"));
    let snapshot = list_processes(
        &mut cache,
        1,
        4096,
        vec![raw(7, "sh", "sh -c ls", 300), raw(7, "sh", "sh -c pwd", 300), raw(8, "sh", "sh -c ls", 300)],
    );
    assert!(Arc::ptr_eq(&snapshot.entries[0].process, &known));
    assert!(!Arc::ptr_eq(&snapshot.entries[1].process, &known));
    assert!(!Arc::ptr_eq(&snapshot.entries[2].process, &known));
    assert!(!same_identity(&snapshot.entries[1].process, &snapshot.entries[2].process));
    assert_eq!(cache.len(), 3);
    assert_eq!(cache.holders_of(&known), 2);
    assert!(cache.is_cached(&process(7, "sh", "sh -c pwd")));
    assert!(cache.is_cached(&process(8, "sh", "sh -c ls")));
}
