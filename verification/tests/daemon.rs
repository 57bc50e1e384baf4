use statsai::daemon_presence::{
    after_probe, classify_launchctl, daemon_presence, describe_status, gui_domain,
    interpret_probe, launch_agent_loaded_in, launch_agent_state, launch_agent_state_in,
    launch_agent_target, parse_lsof_openers, store_files, store_openers, DaemonPresence, Exit,
    LaunchAgentState, OpenersStep, StoreOpener, LAUNCHCTL_NO_SUCH_SERVICE, LSOF_NOTHING_FOUND,
};

fn exited(code: i32) -> Exit {
    Exit { code: Some(code) }
}

const SIGNALLED: Exit = Exit { code: None };

#[test]
fn openers_are_read_per_process_and_exclude_this_one() {
    let output = "p321\ncstatsai-daemon\np777\ncstatsai\ncstatsai\np999\ncstatsai\n";
    assert_eq!(
        parse_lsof_openers(output, 777),
        vec![
            StoreOpener {
                pid: 321,
                command: "statsai-daemon".to_string()
            },
            StoreOpener {
                pid: 999,
                command: "statsai".to_string()
            }
        ]
    );
}

#[test]
fn no_output_means_no_openers() {
    assert!(parse_lsof_openers("", 1).is_empty());
    // A command line without a preceding pid line describes nothing.
    assert!(parse_lsof_openers("cstatsai\n", 1).is_empty());
}

#[test]
fn unreadable_lines_are_passed_over() {
    let openers = parse_lsof_openers("é\np12\r\nc one \nf3\npx\nctwo\np4294967296\ncthree\n", 1);
    assert_eq!(openers.len(), 1);
    assert_eq!(openers[0].text(), "pid 12 (one)");
}

#[test]
fn a_store_nobody_has_open_lists_no_openers() {
    let files = store_files("/data/statsai.sqlite");
    assert_eq!(
        files,
        vec![
            "/data/statsai.sqlite",
            "/data/statsai.sqlite-wal",
            "/data/statsai.sqlite-shm",
            "/data/statsai.sqlite-journal"
        ]
    );
    let OpenersStep::Probe(probed) = store_openers(vec![files[0].clone()]) else {
        panic!("an existing file is probed");
    };
    let answer = interpret_probe(exited(LSOF_NOTHING_FOUND), "", "", &probed, 1);
    assert_eq!(
        after_probe(probed.len(), answer, probed),
        OpenersStep::Done(Ok(Vec::new()))
    );
    assert_eq!(store_openers(Vec::new()), OpenersStep::Done(Ok(Vec::new())));
}

#[test]
fn a_failed_probe_is_repeated_only_when_files_vanished() {
    let files = vec!["a".to_string(), "a-wal".to_string()];
    let failed = interpret_probe(exited(1), "", "lsof: status error on a-wal\n", &files, 1);
    assert!(failed.is_err());
    assert_eq!(
        after_probe(2, failed.clone(), vec!["a".to_string()]),
        OpenersStep::Probe(vec!["a".to_string()])
    );
    assert_eq!(after_probe(2, failed.clone(), Vec::new()), OpenersStep::Done(failed.clone()));
    assert_eq!(after_probe(2, failed.clone(), files), OpenersStep::Done(failed));
}

#[test]
fn only_a_missing_service_reads_as_not_loaded() {
    assert_eq!(classify_launchctl(exited(0)), LaunchAgentState::Loaded);
    assert_eq!(
        classify_launchctl(exited(LAUNCHCTL_NO_SUCH_SERVICE)),
        LaunchAgentState::NotLoaded
    );
    // 112 is "no such domain" and 64 is a usage error: both are launchctl failing
    // to look, not launchctl reporting that nothing is loaded.
    assert_eq!(classify_launchctl(exited(112)), LaunchAgentState::Unknown);
    assert_eq!(classify_launchctl(exited(64)), LaunchAgentState::Unknown);
    assert_eq!(classify_launchctl(SIGNALLED), LaunchAgentState::Unknown);
    assert_eq!(LAUNCHCTL_NO_SUCH_SERVICE, 113);
}

#[test]
fn silence_only_means_no_openers_at_the_status_lsof_uses_for_it() {
    let files = ["/tmp/statsai.sqlite".to_string()];

    assert_eq!(
        interpret_probe(exited(LSOF_NOTHING_FOUND), "", "", &files, 1).expect("nothing found"),
        Vec::new()
    );
    // Killed before it could look: no output, and no answer either.
    let signalled = interpret_probe(SIGNALLED, "", "", &files, 1)
        .expect_err("a signalled probe answers nothing");
    assert!(signalled.contains("no output"), "{signalled}");
    // Success without a word is no answer: lsof lists what it found when it succeeds.
    let silent = interpret_probe(exited(0), "", "", &files, 1)
        .expect_err("a silent success answers nothing");
    assert!(silent.contains("no output"), "{silent}");
    assert!(interpret_probe(exited(0), " \n", "", &files, 1).is_err());
    // A listing of this process alone names no other opener.
    assert_eq!(
        interpret_probe(exited(0), "p1\ncstatsai\n", "", &files, 1).expect("own process"),
        Vec::new()
    );
    // An exit code lsof does not use for "nothing found" is equally unreadable.
    assert!(interpret_probe(exited(2), "", "", &files, 1).is_err());
    // Whatever the status, openers that were reported are still openers.
    assert_eq!(
        interpret_probe(exited(1), "p42\ncstatsai\n", "", &files, 1)
            .expect("reported openers count")
            .len(),
        1
    );
}

#[test]
fn a_probe_that_could_not_answer_is_an_error_not_an_empty_list() {
    let missing = "/tmp/gone/vanished.sqlite".to_string();
    let message = interpret_probe(
        exited(1),
        "",
        "lsof: status error on /tmp/gone/vanished.sqlite: No such file or directory\nmore\n",
        std::slice::from_ref(&missing),
        1,
    )
    .expect_err("lsof must report its failure");

    assert!(message.contains("could not report who has"), "{message}");
    assert!(message.contains("vanished.sqlite"), "{message}");
    assert_eq!(
        message,
        "lsof could not report who has /tmp/gone/vanished.sqlite open (exit status 1): \
         lsof: status error on /tmp/gone/vanished.sqlite: No such file or directory"
    );
    assert_eq!(describe_status(SIGNALLED), "terminated by a signal");
    assert_eq!(describe_status(exited(-1)), "exit status -1");
}

#[test]
fn launch_agent_target_combines_domain_and_label() {
    assert_eq!(launch_agent_target("gui/501"), "gui/501/dev.statsai.daemon");
}

#[test]
fn any_signal_alone_counts_as_present_including_not_knowing() {
    let absent = DaemonPresence {
        launch_agent: LaunchAgentState::NotLoaded,
        reachable: false,
    };
    assert!(!absent.any());
    assert!(DaemonPresence {
        launch_agent: LaunchAgentState::Loaded,
        ..absent
    }
    .any());
    assert!(DaemonPresence {
        reachable: true,
        ..absent
    }
    .any());
    // A KeepAlive daemon between restarts holds neither the port nor the
    // database, so an unreadable LaunchAgent is the only thing left to go on.
    assert!(DaemonPresence {
        launch_agent: LaunchAgentState::Unknown,
        ..absent
    }
    .any());
}

#[test]
fn an_unreadable_domain_says_nothing() {
    assert_eq!(gui_domain(true, Some("501\n")), Some("gui/501".to_string()));
    assert_eq!(gui_domain(true, Some(" \n")), None);
    assert_eq!(gui_domain(false, Some("501")), None);
    assert_eq!(gui_domain(true, None), None);
    assert_eq!(launch_agent_state(true, None, None), LaunchAgentState::Unknown);
    assert_eq!(launch_agent_state(false, None, None), LaunchAgentState::NotLoaded);
    assert_eq!(
        launch_agent_state(true, Some("gui/501"), Some(exited(0))),
        LaunchAgentState::Loaded
    );
    assert_eq!(launch_agent_state_in(true, None), LaunchAgentState::Unknown);
    assert!(!launch_agent_loaded_in(true, None));
    assert!(launch_agent_loaded_in(true, Some(exited(0))));
    let presence = daemon_presence(true, None, None, false);
    assert!(presence.any());
    assert!(!daemon_presence(false, None, None, false).any());
}
