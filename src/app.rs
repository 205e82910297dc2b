//! The state of the task manager's screen: which view is shown and what the
//! add-task form holds, and how each user action changes it.
use vstd::prelude::*;

use crate::clock::MAX_UTC_MICROS;
use crate::task::{StoreView, TaskManager};
use crate::user_manager::blank;

verus! {

/// The two views of the screen.
#[derive(Debug, Clone, Copy, PartialEq, Eq, Structural)]
pub enum AppView {
    TaskManager,
    KpiDashboard,
}

/// A user action on the screen.
pub enum UiEvent {
    OpenKpiDashboard,
    BackToTasks,
    EditTitle(String),
    EditDescription(String),
    SubmitNewTask,
}

/// The screen's state. The store it acts on is passed to each action.
pub struct TaskManagerApp {
    current_view: AppView,
    new_task_title: String,
    new_task_description: String,
}

impl TaskManagerApp {
    pub closed spec fn view_spec(&self) -> AppView {
        self.current_view
    }

    pub closed spec fn form_title(&self) -> String {
        self.new_task_title
    }

    pub closed spec fn form_description(&self) -> String {
        self.new_task_description
    }

    /// The task list, with an empty form.
    pub fn new() -> (r: TaskManagerApp)
        ensures
            r.view_spec() == AppView::TaskManager,
            r.form_title()@.len() == 0,
            r.form_description()@.len() == 0,
    {
        TaskManagerApp {
            current_view: AppView::TaskManager,
            new_task_title: String::new(),
            new_task_description: String::new(),
        }
    }

    pub fn current_view(&self) -> (r: AppView)
        ensures
            r == self.view_spec(),
    {
        self.current_view
    }

    pub fn new_task_title(&self) -> (r: &String)
        ensures
            r@ == self.form_title()@,
    {
        &self.new_task_title
    }

    pub fn new_task_description(&self) -> (r: &String)
        ensures
            r@ == self.form_description()@,
    {
        &self.new_task_description
    }

    /// Applies one action. Submitting the form adds a task to `store` when
    /// the title is not blank and an id is left, clears the form and returns
    /// the new id; otherwise nothing changes and the result is `None`.
    pub fn handle_event(&mut self, event: UiEvent, store: &mut TaskManager) -> (r: Option<u32>)
        requires
            old(store).wf(),
        ensures
            final(store).wf(),
            match event {
                UiEvent::OpenKpiDashboard => final(self).view_spec() == AppView::KpiDashboard
                    && final(self).form_title()@ == old(self).form_title()@
                    && final(self).form_description()@ == old(self).form_description()@
                    && final(store)@ == old(store)@ && r is None,
                UiEvent::BackToTasks => final(self).view_spec() == AppView::TaskManager
                    && final(self).form_title()@ == old(self).form_title()@
                    && final(self).form_description()@ == old(self).form_description()@
                    && final(store)@ == old(store)@ && r is None,
                UiEvent::EditTitle(t) => final(self).view_spec() == old(self).view_spec()
                    && final(self).form_title()@ == t@
                    && final(self).form_description()@ == old(self).form_description()@
                    && final(store)@ == old(store)@ && r is None,
                UiEvent::EditDescription(d) => final(self).view_spec() == old(self).view_spec()
                    && final(self).form_title()@ == old(self).form_title()@
                    && final(self).form_description()@ == d@
                    && final(store)@ == old(store)@ && r is None,
                UiEvent::SubmitNewTask => final(self).view_spec() == old(self).view_spec() && if blank(
                    old(self).form_title()@,
                ) || old(store)@.next_id >= u32::MAX {
                    r is None && final(store)@ == old(store)@
                        && final(self).form_title()@ == old(self).form_title()@
                        && final(self).form_description()@ == old(self).form_description()@
                } else {
                    r == Some(old(store)@.next_id as u32)
                        && final(self).form_title()@.len() == 0
                        && final(self).form_description()@.len() == 0
                        && exists|now: i64|
                        #![trigger old(store)@.added(old(self).form_title(), old(self).form_description(), now)]
                        0 <= now <= MAX_UTC_MICROS && final(store)@ == old(store)@.added(
                            old(self).form_title(),
                            old(self).form_description(),
                            now,
                        )
                },
            },
    {
        match event {
            UiEvent::OpenKpiDashboard => {
                self.current_view = AppView::KpiDashboard;
                None
            },
            UiEvent::BackToTasks => {
                self.current_view = AppView::TaskManager;
                None
            },
            UiEvent::EditTitle(t) => {
                self.new_task_title = t;
                None
            },
            UiEvent::EditDescription(d) => {
                self.new_task_description = d;
                None
            },
            UiEvent::SubmitNewTask => {
                if crate::user_manager::is_blank(&self.new_task_title) || !store.can_add() {
                    return None;
                }
                let ghost before: StoreView = store@;
                let ghost title = self.new_task_title;
                let ghost description = self.new_task_description;
                let id = store.add_task(
                    self.new_task_title.clone(),
                    self.new_task_description.clone(),
                );
                proof {
                    let now = choose|now: i64|
                        0 <= now <= MAX_UTC_MICROS && store@ == before.added(title, description, now);
                    assert(store@ == before.added(title, description, now));
                    assert(before == old(store)@);
                    assert(title == old(self).form_title());
                    assert(description == old(self).form_description());
                    assert(store@ == old(store)@.added(old(self).form_title(), old(self).form_description(), now));
                }
                self.new_task_title = String::new();
                self.new_task_description = String::new();
                Some(id)
            },
        }
    }
}

impl Default for TaskManagerApp {
    fn default() -> (r: TaskManagerApp)
        ensures
            r.view_spec() == AppView::TaskManager,
            r.form_title()@.len() == 0,
            r.form_description()@.len() == 0,
    {
        TaskManagerApp::new()
    }
}

} // verus!
