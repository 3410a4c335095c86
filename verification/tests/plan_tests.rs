use course_assets::content::{AssetKind, Discovery};
use course_assets::executor::{Executor, Outcome, Step};
use course_assets::plan::{course_directory, directory_for, walk, Visit, VisitKind};
use course_assets::supervisor::{
    spawn_failed, HelperError, HelperEvent, LogLevel, Phase, Stream, Supervisor,
};
use course_assets::tasks::{
    file_name, helper_arguments, lesson_tasks, name_target, DownloadTask, Strategy, TargetError,
    REFERER,
};
use course_assets::tree::{LessonsListItem, ModuleTreeItem};

fn item(id: usize, name: &str, is_category: bool, content_page_id: Option<usize>) -> LessonsListItem {
    LessonsListItem {
        id,
        name: name.to_string(),
        active: true,
        content_page_id,
        is_category,
        parent_id: None,
        position: id,
    }
}

fn strings(parts: &[&str]) -> Vec<String> {
    parts.iter().map(|p| p.to_string()).collect()
}

#[test]
fn directory_names_count_from_one_in_two_digits() {
    assert_eq!(directory_for(0, "Intro"), "01 Intro");
    assert_eq!(directory_for(8, "Module 3: Intro / Setup?"), "09 Module 3 - Intro - Setup");
    assert_eq!(directory_for(9, "x"), "10 x");
    assert_eq!(directory_for(98, "y"), "99 y");
    assert_eq!(directory_for(99, "z"), "100 z");
    assert_eq!(directory_for(12344, ""), "12345 ");
}

#[test]
fn course_directory_is_seller_then_product() {
    assert_eq!(course_directory("A/B", "C: D"), strings(&["A - B", "C - D"]));
}

#[test]
fn walk_is_depth_first_with_each_node_before_its_descendants() {
    let tree = vec![
        ModuleTreeItem::Category {
            item: item(1, "Intro", true, None),
            children: vec![
                ModuleTreeItem::Lesson { item: item(2, "L1", false, Some(20)) },
                ModuleTreeItem::Category {
                    item: item(3, "Deep", true, None),
                    children: vec![ModuleTreeItem::Lesson { item: item(4, "L2", false, None) }],
                },
            ],
        },
        ModuleTreeItem::Lesson { item: item(5, "Last?", false, Some(50)) },
    ];
    let base = strings(&["Seller", "Product"]);
    let stops = walk(&tree, &base);
    let expected = vec![
        Visit { path: strings(&["Seller", "Product", "01 Intro"]), kind: VisitKind::Category },
        Visit {
            path: strings(&["Seller", "Product", "01 Intro", "01 L1"]),
            kind: VisitKind::Lesson { lesson_id: 2, content_page_id: Some(20) },
        },
        Visit {
            path: strings(&["Seller", "Product", "01 Intro", "02 Deep"]),
            kind: VisitKind::Category,
        },
        Visit {
            path: strings(&["Seller", "Product", "01 Intro", "02 Deep", "01 L2"]),
            kind: VisitKind::Lesson { lesson_id: 4, content_page_id: None },
        },
        Visit {
            path: strings(&["Seller", "Product", "02 Last"]),
            kind: VisitKind::Lesson { lesson_id: 5, content_page_id: Some(50) },
        },
    ];
    assert_eq!(stops, expected);
    assert_eq!(walk(&Vec::new(), &base), Vec::new());
}

#[test]
fn tasks_follow_the_discoveries() {
    let dir = strings(&["S", "P", "01 L"]);
    let found = vec![
        Discovery { url: "https://e.example/1".to_string(), name: None, kind: AssetKind::Embed },
        Discovery {
            url: "https://f.example/a.pdf".to_string(),
            name: Some("A".to_string()),
            kind: AssetKind::File,
        },
        Discovery { url: "https://v.example/v".to_string(), name: None, kind: AssetKind::Video },
    ];
    let tasks = lesson_tasks(&dir, &found);
    assert_eq!(
        tasks,
        vec![
            DownloadTask {
                url: "https://e.example/1".to_string(),
                directory: dir.clone(),
                name: None,
                strategy: Strategy::Helper,
            },
            DownloadTask {
                url: "https://f.example/a.pdf".to_string(),
                directory: dir.clone(),
                name: Some("A".to_string()),
                strategy: Strategy::Stream,
            },
            DownloadTask {
                url: "https://v.example/v".to_string(),
                directory: dir.clone(),
                name: None,
                strategy: Strategy::Stream,
            },
        ]
    );
}

#[test]
fn file_name_is_the_given_name_or_the_last_path_segment() {
    assert_eq!(
        file_name("https://f.example/dir/report%20final.pdf?x=1", &None),
        Ok("report%20final.pdf".to_string())
    );
    assert_eq!(
        file_name("https://f.example/dir/a.pdf", &Some("My: File".to_string())),
        Ok("My - File".to_string())
    );
    assert_eq!(file_name("https://f.example", &None), Ok("".to_string()));
    assert_eq!(file_name("not a url", &None), Err(TargetError::InvalidUrl));
    assert_eq!(file_name("not a url", &Some("n".to_string())), Err(TargetError::InvalidUrl));
    assert_eq!(file_name("data:text/plain,Hello", &None), Err(TargetError::NoPathSegments));
    assert_eq!(
        file_name("data:text/plain,Hello", &Some("n".to_string())),
        Ok("n".to_string())
    );
}

#[test]
fn name_target_for_each_parse_result() {
    assert_eq!(name_target(&None, &None), Err(TargetError::InvalidUrl));
    assert_eq!(name_target(&Some(None), &None), Err(TargetError::NoPathSegments));
    assert_eq!(name_target(&Some(Some("a/b".to_string())), &None), Ok("a - b".to_string()));
    assert_eq!(
        name_target(&Some(None), &Some("x?".to_string())),
        Ok("x".to_string())
    );
}

#[test]
fn helper_arguments_in_order() {
    assert_eq!(
        helper_arguments("https://player.vimeo.com/video/1", REFERER, "/out/01 L"),
        strings(&[
            "--newline",
            "--no-colors",
            "--legacy-server-connect",
            "--add-header",
            "Referer:https://elopage.com/",
            "https://player.vimeo.com/video/1",
            "--paths",
            "/out/01 L",
        ])
    );
}

#[test]
fn at_most_two_run_and_nothing_starts_after_a_failure() {
    let mut run = Executor::new(2);
    assert_eq!(run.next_step(), Step::Admit);
    assert_eq!(run.start_next(), Some(0));
    assert_eq!(run.start_next(), Some(1));
    assert_eq!(run.running, 2);
    assert_eq!(run.next_step(), Step::Wait);
    assert_eq!(run.start_next(), None);
    run.settle(0, true);
    assert_eq!(run.start_next(), Some(2));
    assert_eq!(run.start_next(), None);
    assert!(run.running <= 2);
    run.settle(2, false);
    assert_eq!(run.next_step(), Step::Wait);
    assert_eq!(run.start_next(), None);
    assert_eq!(run.outcome(), None);
    run.settle(1, true);
    assert_eq!(run.start_next(), None);
    assert_eq!(run.next_step(), Step::Finished);
    assert_eq!(run.outcome(), Some(Outcome::Failed { task: 2 }));
    assert_eq!(run.admitted, 3);
    assert_eq!(run.running, 0);
}

#[test]
fn a_run_without_failure_succeeds() {
    let mut run = Executor::new(0);
    assert_eq!(run.limit, 1);
    assert_eq!(run.start_next(), Some(0));
    assert_eq!(run.start_next(), None);
    run.settle(0, true);
    assert_eq!(run.outcome(), None);
    assert_eq!(run.start_next(), Some(1));
    run.settle(1, true);
    run.exhaust();
    assert_eq!(run.start_next(), None);
    assert_eq!(run.outcome(), Some(Outcome::Succeeded));
    let mut empty = Executor::new(5);
    empty.exhaust();
    assert_eq!(empty.outcome(), Some(Outcome::Succeeded));
    empty.settle(0, false);
    assert_eq!(empty.running, 0);
    assert_eq!(empty.outcome(), Some(Outcome::Failed { task: 0 }));
}

#[test]
fn the_first_failure_is_kept() {
    let mut run = Executor::new(3);
    run.start_next();
    run.start_next();
    run.start_next();
    run.settle(1, false);
    run.settle(0, false);
    run.settle(2, true);
    assert_eq!(run.outcome(), Some(Outcome::Failed { task: 1 }));
}

#[test]
fn helper_is_over_when_it_has_exited_and_both_streams_ended() {
    let mut state = Supervisor::spawned();
    assert_eq!(state.phase, Phase::Spawned);
    assert_eq!(state.on_event(HelperEvent::Exit { code: Some(0) }), None);
    assert_eq!(state.phase, Phase::Spawned);
    assert_eq!(state.on_event(HelperEvent::Attached { output: true, error: true }), None);
    assert_eq!(state.phase, Phase::StreamsAttached);
    assert_eq!(
        state.on_event(HelperEvent::Line { stream: Stream::Output }),
        Some(LogLevel::Debug)
    );
    assert_eq!(
        state.on_event(HelperEvent::Line { stream: Stream::Error }),
        Some(LogLevel::Warn)
    );
    assert_eq!(state.on_event(HelperEvent::Exit { code: Some(0) }), None);
    assert_eq!(state.phase, Phase::Exited { code: Some(0) });
    assert_eq!(state.result(), None);
    state.on_event(HelperEvent::Closed { stream: Stream::Output });
    assert_eq!(state.result(), None);
    state.on_event(HelperEvent::Closed { stream: Stream::Error });
    assert_eq!(state.result(), Some(Ok(())));
}

#[test]
fn helper_fails_on_any_other_exit() {
    let mut state = Supervisor::spawned();
    state.on_event(HelperEvent::Attached { output: false, error: false });
    assert_eq!(state.result(), None);
    state.on_event(HelperEvent::Exit { code: Some(1) });
    assert_eq!(state.result(), Some(Err(HelperError::ExitCode { code: Some(1) })));
    state.on_event(HelperEvent::Exit { code: Some(0) });
    assert_eq!(state.result(), Some(Err(HelperError::ExitCode { code: Some(1) })));
    let mut killed = Supervisor::spawned();
    killed.on_event(HelperEvent::Attached { output: false, error: true });
    killed.on_event(HelperEvent::Closed { stream: Stream::Error });
    killed.on_event(HelperEvent::Exit { code: None });
    assert_eq!(killed.result(), Some(Err(HelperError::ExitCode { code: None })));
    assert_eq!(spawn_failed(), Err(HelperError::SpawnFailed));
}
