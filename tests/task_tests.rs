use gh_actions::analytics::END_OF_DAY_OFFSET;
use gh_actions::clock::{DAY_MICROS, HOUR_MICROS, SECOND_MICROS};
use gh_actions::{AppView, Task, TaskManager, TaskManagerApp, UiEvent};

fn fraction(d: &gh_actions::ExactDuration) -> (i128, i128) {
    (d.numerator, d.denominator)
}

#[test]
fn test_task_creation() {
    let task = Task::new(1, "Test Task".to_string(), "Test Description".to_string());
    assert_eq!(task.id, 1);
    assert_eq!(task.title, "Test Task");
    assert!(!task.completed);
}

#[test]
fn test_task_manager() {
    let mut manager = TaskManager::new();
    let id = manager.add_task("Test Task".to_string(), "Test Description".to_string());

    assert_eq!(manager.get_total_count(), 1);
    assert_eq!(manager.get_completed_count(), 0);

    manager.toggle_task(id);
    assert_eq!(manager.get_completed_count(), 1);
}

#[test]
fn ids_strictly_increase_across_removals() {
    let mut m = TaskManager::new();
    let a = m.add_task_at("a".to_string(), String::new(), 0);
    let b = m.add_task_at("b".to_string(), String::new(), 0);
    assert!(m.remove_task(b));
    let c = m.add_task_at("c".to_string(), String::new(), 0);
    assert!(m.remove_task(a));
    assert!(m.remove_task(c));
    let d = m.add_task_at("d".to_string(), String::new(), 0);
    assert_eq!((a, b, c, d), (1, 2, 3, 4));
    assert!(m.get_task(b).is_none());
    assert_eq!(m.get_task(d).unwrap().title, "d");
}

#[test]
fn toggle_twice_restores_open_task() {
    let mut m = TaskManager::new();
    let id = m.add_task_at("t".to_string(), String::new(), 100);
    assert!(m.toggle_task_at(id, 500));
    let t = m.get_task(id).unwrap();
    assert!(t.completed);
    assert_eq!(t.completed_at, Some(500));
    assert!(m.toggle_task_at(id, 900));
    let t = m.get_task(id).unwrap();
    assert!(!t.completed);
    assert_eq!(t.completed_at, None);
    assert_eq!(t.created_at, 100);
}

#[test]
fn toggle_twice_on_completed_task_restamps_completion() {
    let mut t = Task::new_at(7, "x".to_string(), String::new(), 10);
    t.toggle_completed_at(20);
    t.toggle_completed_at(30);
    assert!(!t.completed);
    t.toggle_completed_at(40);
    assert_eq!(t.completed_at, Some(40));
}

#[test]
fn completion_time_present_exactly_when_completed() {
    let mut m = TaskManager::new();
    let a = m.add_task_at("a".to_string(), String::new(), 0);
    let b = m.add_task_at("b".to_string(), String::new(), 0);
    m.toggle_task_at(a, 5);
    m.toggle_task_at(b, 6);
    m.toggle_task_at(b, 7);
    m.remove_task(42);
    for t in m.get_all_tasks() {
        assert_eq!(t.completed_at.is_some(), t.completed);
    }
}

#[test]
fn completed_and_open_counts_partition_total() {
    let mut m = TaskManager::new();
    for i in 0..5 {
        let id = m.add_task_at(format!("t{}", i), String::new(), 0);
        if i % 2 == 0 {
            m.toggle_task_at(id, 1);
        }
    }
    let completed = m.get_completed_count();
    let total = m.get_total_count();
    assert_eq!(completed, 3);
    assert_eq!(completed + (total - completed), total);
    assert_eq!(total, 5);
}

#[test]
fn remove_missing_id_leaves_store_unchanged() {
    let mut m = TaskManager::new();
    m.add_task_at("a".to_string(), String::new(), 0);
    assert!(!m.remove_task(999));
    assert_eq!(m.get_total_count(), 1);
    assert!(!m.toggle_task(999));
    assert_eq!(m.get_completed_count(), 0);
}

#[test]
fn average_completion_time_scenario() {
    let mut m = TaskManager::new();
    assert!(m.get_average_completion_time().is_none());
    let id = m.add_task("quick".to_string(), String::new());
    m.toggle_task(id);
    let avg = m.get_average_completion_time().unwrap();
    assert!(avg.denominator == 1);
    assert!(avg.numerator >= 0);
    assert!(avg.numerator < SECOND_MICROS as i128);
}

#[test]
fn average_completion_time_is_exact_mean() {
    let mut m = TaskManager::new();
    let a = m.add_task_at("a".to_string(), String::new(), 0);
    let b = m.add_task_at("b".to_string(), String::new(), 0);
    m.add_task_at("c".to_string(), String::new(), 0);
    m.toggle_task_at(a, 2 * HOUR_MICROS);
    m.toggle_task_at(b, 5 * HOUR_MICROS);
    let avg = m.get_average_completion_time().unwrap();
    assert_eq!(fraction(&avg), (7 * HOUR_MICROS as i128, 2));
}

#[test]
fn three_tasks_one_completed_today() {
    let mut m = TaskManager::new();
    let a = m.add_task("a".to_string(), String::new());
    m.add_task("b".to_string(), String::new());
    m.add_task("c".to_string(), String::new());
    m.toggle_task(a);
    let series = m.get_completed_tasks_time_series(1);
    assert_eq!(series.len(), 1);
    assert_eq!(series[0].1, 1);
    let predictions = m.predict_task_completion_times();
    assert_eq!(predictions.len(), 2);
    let ids: Vec<u32> = predictions.iter().map(|p| p.0).collect();
    assert_eq!(ids, vec![2, 3]);
}

#[test]
fn completed_series_buckets_by_day() {
    let now = 10 * DAY_MICROS + 5 * HOUR_MICROS;
    let mut m = TaskManager::new();
    let a = m.add_task_at("a".to_string(), String::new(), 7 * DAY_MICROS);
    let b = m.add_task_at("b".to_string(), String::new(), 7 * DAY_MICROS);
    let c = m.add_task_at("c".to_string(), String::new(), 7 * DAY_MICROS);
    m.add_task_at("d".to_string(), String::new(), 9 * DAY_MICROS);
    m.toggle_task_at(a, 8 * DAY_MICROS + HOUR_MICROS);
    m.toggle_task_at(b, 10 * DAY_MICROS);
    // after 23:59:59 but before midnight: in no bucket
    m.toggle_task_at(c, 9 * DAY_MICROS + END_OF_DAY_OFFSET + 1);
    let series = m.completed_tasks_time_series_at(3, now);
    assert_eq!(
        series,
        vec![(8 * DAY_MICROS, 1), (9 * DAY_MICROS, 0), (10 * DAY_MICROS, 1)]
    );
    assert!(m.completed_tasks_time_series_at(0, now).is_empty());
}

#[test]
fn incomplete_series_counts_backlog_at_each_day_end() {
    let now = 10 * DAY_MICROS + 5 * HOUR_MICROS;
    let mut m = TaskManager::new();
    let a = m.add_task_at("a".to_string(), String::new(), 7 * DAY_MICROS);
    m.add_task_at("b".to_string(), String::new(), 9 * DAY_MICROS + HOUR_MICROS);
    m.toggle_task_at(a, 9 * DAY_MICROS + 2 * HOUR_MICROS);
    let series = m.incomplete_tasks_time_series_at(3, now);
    let ends: Vec<i64> = (8..=10).map(|d| d * DAY_MICROS + END_OF_DAY_OFFSET).collect();
    assert_eq!(series, vec![(ends[0], 1), (ends[1], 1), (ends[2], 1)]);
    let series = m.incomplete_tasks_time_series_at(4, now);
    assert_eq!(series[0], (7 * DAY_MICROS + END_OF_DAY_OFFSET, 1));
}

#[test]
fn cumulative_series_never_decreases() {
    let now = 10 * DAY_MICROS + 5 * HOUR_MICROS;
    let mut m = TaskManager::new();
    for d in [6, 8, 8, 10] {
        let id = m.add_task_at(String::new(), String::new(), 0);
        m.toggle_task_at(id, d * DAY_MICROS + HOUR_MICROS);
    }
    let series = m.cumulative_completed_time_series_at(5, now);
    let counts: Vec<usize> = series.iter().map(|p| p.1).collect();
    assert_eq!(counts, vec![1, 1, 3, 3, 4]);
    assert!(counts.windows(2).all(|w| w[0] <= w[1]));
    assert_eq!(series[4].0, 10 * DAY_MICROS + END_OF_DAY_OFFSET);
}

#[test]
fn series_days_before_the_epoch_use_floor_day_boundaries() {
    let now = -HOUR_MICROS;
    let mut m = TaskManager::new();
    let a = m.add_task_at(String::new(), String::new(), -3 * DAY_MICROS);
    m.toggle_task_at(a, -2 * HOUR_MICROS);
    let series = m.completed_tasks_time_series_at(2, now);
    assert_eq!(series, vec![(-2 * DAY_MICROS, 0), (-DAY_MICROS, 1)]);
}

#[test]
fn live_series_cover_requested_days() {
    let m = TaskManager::new();
    assert_eq!(m.get_completed_tasks_time_series(7).len(), 7);
    assert_eq!(m.get_incomplete_tasks_time_series(7).len(), 7);
    assert_eq!(m.get_cumulative_completed_time_series(7).len(), 7);
    assert!(m.get_completed_tasks_time_series(u32::MAX).is_empty());
}

#[test]
fn predictions_without_history_use_a_day() {
    let mut m = TaskManager::new();
    m.add_task_at("young".to_string(), String::new(), 0);
    m.add_task_at("old".to_string(), String::new(), -2 * DAY_MICROS);
    let p = m.predict_task_completion_times_at(HOUR_MICROS);
    assert_eq!(p.len(), 2);
    assert_eq!(p[0].0, 1);
    assert_eq!(fraction(&p[0].1), (DAY_MICROS as i128, 1));
    // 49 hours old against a 24 hour baseline: (49 + 24) / 2 hours
    assert_eq!(p[1].0, 2);
    assert_eq!(fraction(&p[1].1), ((49 + 24) * HOUR_MICROS as i128, 2));
}

#[test]
fn predictions_scale_with_age_beyond_mean() {
    let mut m = TaskManager::new();
    let done = m.add_task_at("done".to_string(), String::new(), 0);
    m.toggle_task_at(done, 4 * HOUR_MICROS);
    m.add_task_at("open".to_string(), String::new(), 0);
    m.add_task_at("fresh".to_string(), String::new(), 9 * HOUR_MICROS);
    let p = m.predict_task_completion_times_at(10 * HOUR_MICROS);
    assert_eq!(p.len(), 2);
    // 10 hours old, baseline 4: 4 * (1 + 0.5 * 6 / 4) = 7 hours
    assert_eq!(p[0].0, 2);
    assert_eq!(fraction(&p[0].1), (14 * HOUR_MICROS as i128, 2));
    assert_eq!(p[1].0, 3);
    assert_eq!(fraction(&p[1].1), (4 * HOUR_MICROS as i128, 1));
}

#[test]
fn since_queries_filter_by_timestamp() {
    let mut m = TaskManager::new();
    let a = m.add_task_at("a".to_string(), String::new(), 10);
    m.add_task_at("b".to_string(), String::new(), 20);
    m.toggle_task_at(a, 30);
    let created: Vec<u32> = m.get_tasks_created_since(15).iter().map(|t| t.id).collect();
    assert_eq!(created, vec![2]);
    let completed: Vec<u32> = m.get_tasks_completed_since(30).iter().map(|t| t.id).collect();
    assert_eq!(completed, vec![1]);
    assert!(m.get_tasks_completed_since(31).is_empty());
}

#[test]
fn screen_form_adds_task_and_clears() {
    let mut store = TaskManager::new();
    let mut app = TaskManagerApp::new();
    assert_eq!(app.current_view(), AppView::TaskManager);
    assert_eq!(app.handle_event(UiEvent::SubmitNewTask, &mut store), None);
    app.handle_event(UiEvent::EditTitle("   ".to_string()), &mut store);
    assert_eq!(app.handle_event(UiEvent::SubmitNewTask, &mut store), None);
    assert_eq!(store.get_total_count(), 0);
    app.handle_event(UiEvent::EditTitle("Write".to_string()), &mut store);
    app.handle_event(UiEvent::EditDescription("docs".to_string()), &mut store);
    assert_eq!(app.handle_event(UiEvent::SubmitNewTask, &mut store), Some(1));
    assert_eq!(store.get_task(1).unwrap().description, "docs");
    assert!(app.new_task_title().is_empty());
    assert!(app.new_task_description().is_empty());
    app.handle_event(UiEvent::OpenKpiDashboard, &mut store);
    assert_eq!(app.current_view(), AppView::KpiDashboard);
    app.handle_event(UiEvent::BackToTasks, &mut store);
    assert_eq!(app.current_view(), TaskManagerApp::default().current_view());
}

#[test]
fn restore_keeps_ids_ordered_and_moves_counter() {
    let mut m = TaskManager::new();
    let mut done = Task::new_at(5, "five".to_string(), String::new(), 10);
    done.toggle_completed_at(20);
    assert!(m.restore_task(done));
    assert!(m.restore_task(Task::new_at(2, "two".to_string(), String::new(), 0)));
    assert!(m.restore_task(Task::new_at(5, "five again".to_string(), String::new(), 0)));
    let ids: Vec<u32> = m.get_all_tasks().iter().map(|t| t.id).collect();
    assert_eq!(ids, vec![2, 5]);
    assert_eq!(m.get_task(5).unwrap().title, "five again");
    assert_eq!(m.add_task_at("next".to_string(), String::new(), 0), 6);
    assert!(!m.restore_task(Task::new_at(0, String::new(), String::new(), 0)));
    assert!(!m.restore_task(Task::new_at(u32::MAX, String::new(), String::new(), 0)));
    let mut bad = Task::new_at(9, String::new(), String::new(), 0);
    bad.completed = true;
    assert!(!m.restore_task(bad));
    assert_eq!(m.get_total_count(), 3);
}

#[test]
fn restore_all_applies_records_in_order_and_counts_refusals() {
    let mut m = TaskManager::new();
    let saved = vec![
        Task::new_at(3, "three".to_string(), String::new(), 0),
        Task::new_at(0, "bad".to_string(), String::new(), 0),
        Task::new_at(1, "one".to_string(), String::new(), 0),
        Task::new_at(3, "three later".to_string(), String::new(), 0),
    ];
    assert_eq!(m.restore_all(saved), 1);
    let ids: Vec<u32> = m.get_all_tasks().iter().map(|t| t.id).collect();
    assert_eq!(ids, vec![1, 3]);
    assert_eq!(m.get_task(3).unwrap().title, "three later");
    assert_eq!(m.add_task_at(String::new(), String::new(), 0), 4);
}

#[test]
fn add_after_remove_never_reuses_an_id() {
    let mut m = TaskManager::new();
    let first = m.add_task_at(String::new(), String::new(), 0);
    assert!(m.toggle_task_at(first, 1));
    assert!(m.remove_task(first));
    let second = m.add_task_at(String::new(), String::new(), 2);
    assert!(second > first);
    assert!(m.get_task(first).is_none());
}
