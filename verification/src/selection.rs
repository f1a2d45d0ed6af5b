//! Choosing the process to inspect: the selector window, and the warning
//! shown before an opened process is given up for another one.
use vstd::prelude::*;
use windows_sys::Win32::Foundation::HANDLE;
use crate::console::{Console, ConsoleRow};
use crate::process::{OpenedProcess, logged};
use crate::processes::Processes;
use crate::text;
use crate::types::{AppState, EMessageType};

verus! {

/// The state of the process selector window and of the reset warning.
pub struct SelectProcessWindow {
    pub show_process_selector: bool,
    pub pending_process_selection: Option<u32>,
    pub show_reset_warning: bool,
    pub requested_process_selection: Option<u32>,
    pub close_selector_on_apply: bool,
}

impl Default for SelectProcessWindow {
    fn default() -> (r: Self)
        ensures
            r == (SelectProcessWindow {
                show_process_selector: false,
                pending_process_selection: None,
                show_reset_warning: false,
                requested_process_selection: None,
                close_selector_on_apply: false,
            }),
    {
        SelectProcessWindow {
            show_process_selector: false,
            pending_process_selection: None,
            show_reset_warning: false,
            requested_process_selection: None,
            close_selector_on_apply: false,
        }
    }
}

/// The window with the selector closed.
pub open spec fn closed_window(w: SelectProcessWindow) -> SelectProcessWindow {
    SelectProcessWindow { show_process_selector: false, ..w }
}

/// The window asking to change to `target`.
pub open spec fn change_requested(w: SelectProcessWindow, target: Option<u32>, close: bool) -> SelectProcessWindow {
    SelectProcessWindow {
        requested_process_selection: target,
        close_selector_on_apply: close,
        show_reset_warning: true,
        ..w
    }
}

/// The window with no change requested.
pub open spec fn request_cleared(w: SelectProcessWindow) -> SelectProcessWindow {
    SelectProcessWindow {
        show_reset_warning: false,
        requested_process_selection: None,
        close_selector_on_apply: false,
        ..w
    }
}

impl SelectProcessWindow {
    /// Opens the selector with `current_selection` picked.
    pub fn open(&mut self, current_selection: Option<u32>)
        ensures
            *final(self) == (SelectProcessWindow {
                pending_process_selection: current_selection,
                show_process_selector: true,
                ..*old(self)
            }),
    {
        self.pending_process_selection = current_selection;
        self.show_process_selector = true;
    }

    /// Closes the selector.
    pub fn close(&mut self)
        ensures
            *final(self) == closed_window(*old(self)),
    {
        self.show_process_selector = false;
    }

    /// Asks for the change to `target_selection`, which the reset warning
    /// has to confirm.
    pub fn request_change(&mut self, target_selection: Option<u32>, close_selector_on_apply: bool)
        ensures
            *final(self) == change_requested(*old(self), target_selection, close_selector_on_apply),
    {
        self.requested_process_selection = target_selection;
        self.close_selector_on_apply = close_selector_on_apply;
        self.show_reset_warning = true;
    }

    /// Drops the requested change and hides the warning.
    pub fn clear_request(&mut self)
        ensures
            *final(self) == request_cleared(*old(self)),
    {
        self.show_reset_warning = false;
        self.requested_process_selection = None;
        self.close_selector_on_apply = false;
    }
}

/// What the selection logic reads of the application: the selected
/// process, whether a process is opened, and the selector window.
pub struct SelectionView {
    pub selected: Option<u32>,
    pub has_opened: bool,
    pub window: SelectProcessWindow,
}

/// `v` after the process `selection` is made the selected one: an opened
/// process other than it is closed.
pub open spec fn applied(v: SelectionView, selection: Option<u32>) -> SelectionView {
    SelectionView {
        selected: selection,
        has_opened: v.has_opened && v.selected == selection,
        window: v.window,
    }
}

/// `v` with the selector closed where `close` holds.
pub open spec fn closed_if(v: SelectionView, close: bool) -> SelectionView {
    if close {
        SelectionView { window: closed_window(v.window), ..v }
    } else {
        v
    }
}

/// `v` after asking for `selection`, and whether the selection took place:
/// selecting the selected process again only closes the selector where
/// asked; with a process opened, the change waits for the warning to be
/// confirmed; else the process is selected at once.
pub open spec fn requested(v: SelectionView, selection: Option<u32>, close: bool) -> (SelectionView, bool) {
    if v.selected == selection {
        (closed_if(v, close), true)
    } else if v.has_opened {
        (SelectionView { window: change_requested(v.window, selection, close), ..v }, false)
    } else {
        (closed_if(applied(v, selection), close), true)
    }
}

/// `v` after the reset warning is answered: confirming selects the process
/// asked for (closing the selector where asked), cancelling drops the
/// request; either hides the warning.
pub open spec fn resolved(v: SelectionView, confirm: bool, cancel: bool) -> SelectionView {
    if confirm {
        let a = closed_if(
            applied(v, v.window.requested_process_selection),
            v.window.close_selector_on_apply,
        );
        SelectionView { window: request_cleared(a.window), ..a }
    } else if cancel {
        SelectionView { window: request_cleared(v.window), ..v }
    } else {
        v
    }
}

/// The application's state, without the system handle that the process
/// list is read through.
pub struct App {
    pub app_state: AppState,
    pub processes: Processes,
    pub console: Console,
    pub opened_process: Option<OpenedProcess>,
    pub select_process_window: SelectProcessWindow,
}

/// What the selection logic reads of `app`.
pub open spec fn selection_view(app: App) -> SelectionView {
    SelectionView {
        selected: app.processes.spec_selected(),
        has_opened: app.opened_process is Some,
        window: app.select_process_window,
    }
}

/// `b` is `a` after a change of the selection: only the selected process,
/// the opened process (kept or closed, as `view` says) and the window differ.
pub open spec fn selection_changed(a: App, b: App, view: SelectionView) -> bool {
    &&& selection_view(b) == view
    &&& b.opened_process == (if view.has_opened {
        a.opened_process
    } else {
        None
    })
    &&& b.app_state == a.app_state
    &&& b.console == a.console
    &&& b.processes.spec_rows() == a.processes.spec_rows()
    &&& b.processes.spec_search() == a.processes.spec_search()
    &&& b.processes.spec_last_update() == a.processes.spec_last_update()
    &&& b.processes.spec_pending_scroll() == a.processes.spec_pending_scroll()
}

impl Default for App {
    fn default() -> (r: Self)
        ensures
            r.app_state == AppState::ProcessSelection,
            r.processes.spec_rows() == Seq::<crate::processes::ProcessRow>::empty(),
            r.processes.spec_selected() is None,
            r.console.messages() == Seq::<ConsoleRow>::empty(),
            r.opened_process is None,
            !r.select_process_window.show_process_selector,
            !r.select_process_window.show_reset_warning,
    {
        App {
            app_state: AppState::ProcessSelection,
            processes: Processes::default(),
            console: Console::default(),
            opened_process: None,
            select_process_window: SelectProcessWindow::default(),
        }
    }
}

impl App {
    /// Makes `selection` the selected process; an opened process other than
    /// it is closed.
    pub fn apply_process_selection(&mut self, selection: Option<u32>)
        ensures
            selection_changed(*old(self), *final(self), applied(selection_view(*old(self)), selection)),
    {
        if self.processes.selected() != selection {
            self.opened_process = None;
        }
        self.processes.set_selected(selection);
    }

    /// Asks to select `selection`; returns whether it is selected now, or
    /// waits for the reset warning because a process is opened.
    pub fn request_process_selection(&mut self, selection: Option<u32>, close_selector_on_apply: bool) -> (r: bool)
        ensures
            (selection_view(*final(self)), r) == requested(
                selection_view(*old(self)),
                selection,
                close_selector_on_apply,
            ),
            selection_changed(*old(self), *final(self), selection_view(*final(self))),
    {
        if self.processes.selected() == selection {
            if close_selector_on_apply {
                self.select_process_window.close();
            }
            return true;
        }
        if self.opened_process.is_some() {
            self.select_process_window.request_change(selection, close_selector_on_apply);
            return false;
        }
        self.apply_process_selection(selection);
        if close_selector_on_apply {
            self.select_process_window.close();
        }
        true
    }

    /// Answers the reset warning: `confirm` applies the requested change,
    /// `cancel` drops it.
    pub fn resolve_reset_warning(&mut self, confirm: bool, cancel: bool)
        ensures
            selection_changed(
                *old(self),
                *final(self),
                resolved(selection_view(*old(self)), confirm, cancel),
            ),
    {
        if confirm {
            let selection = self.select_process_window.requested_process_selection;
            let close_selector_on_apply = self.select_process_window.close_selector_on_apply;
            self.apply_process_selection(selection);
            if close_selector_on_apply {
                self.select_process_window.close();
            }
            self.select_process_window.clear_request();
        } else if cancel {
            self.select_process_window.clear_request();
        }
    }

    /// Takes the outcome of opening the process `pid`: with a handle, the
    /// process is opened and that is logged; with none, `error` is logged.
    pub fn process_opened(&mut self, pid: u32, handle: HANDLE, error: &str)
        ensures
            handle != 0 ==> (final(self).opened_process matches Some(p) && p.spec_pid() == pid
                && p.spec_handle() == handle),
            handle != 0 ==> logged(
                old(self).console.messages(),
                final(self).console.messages(),
                "Process ["@ + text::decimal_digits(pid as nat) + "] is opened"@,
                EMessageType::Success,
            ),
            handle == 0 ==> final(self).opened_process == old(self).opened_process && logged(
                old(self).console.messages(),
                final(self).console.messages(),
                error@,
                EMessageType::Error,
            ),
            final(self).processes == old(self).processes,
            final(self).select_process_window == old(self).select_process_window,
            final(self).app_state == old(self).app_state,
    {
        match OpenedProcess::new(pid, handle) {
            Some(p) => {
                let mut s = text::string_of("Process [");
                text::push_decimal_usize(&mut s, pid as usize);
                text::push_str(&mut s, "] is opened");
                self.console.add_message(ConsoleRow::new(s, EMessageType::Success));
                self.opened_process = Some(p);
            },
            None => {
                self.console.add_message(ConsoleRow::new(text::string_of(error), EMessageType::Error));
            },
        }
    }
}

/// A change of process asked for while a process is opened waits for the
/// warning; confirming it selects the process asked for and closes the
/// opened one, and leaves no request behind.
pub proof fn lemma_confirmed_change_applies(v: SelectionView, selection: Option<u32>, close: bool)
    requires
        v.has_opened,
        v.selected != selection,
    ensures
        !requested(v, selection, close).1,
        requested(v, selection, close).0.selected == v.selected,
        requested(v, selection, close).0.has_opened,
        requested(v, selection, close).0.window.show_reset_warning,
        resolved(requested(v, selection, close).0, true, false).selected == selection,
        !resolved(requested(v, selection, close).0, true, false).has_opened,
        !resolved(requested(v, selection, close).0, true, false).window.show_reset_warning,
        resolved(requested(v, selection, close).0, true, false).window.requested_process_selection is None,
        close ==> !resolved(requested(v, selection, close).0, true, false).window.show_process_selector,
{
}

/// Cancelling the warning keeps the selected and the opened process as
/// they were before the change was asked for.
pub proof fn lemma_cancelled_change_keeps_selection(v: SelectionView, selection: Option<u32>, close: bool)
    requires
        v.has_opened,
        v.selected != selection,
    ensures
        resolved(requested(v, selection, close).0, false, true).selected == v.selected,
        resolved(requested(v, selection, close).0, false, true).has_opened,
        !resolved(requested(v, selection, close).0, false, true).window.show_reset_warning,
        resolved(requested(v, selection, close).0, false, true).window.requested_process_selection is None,
        resolved(requested(v, selection, close).0, false, true).window.show_process_selector == v.window.show_process_selector,
{
}

/// A request that reports success has selected the process asked for.
pub proof fn lemma_granted_request_selects(v: SelectionView, selection: Option<u32>, close: bool)
    requires
        requested(v, selection, close).1,
    ensures
        requested(v, selection, close).0.selected == selection,
        close ==> !requested(v, selection, close).0.window.show_process_selector,
        !requested(v, selection, close).0.window.show_reset_warning <== !v.window.show_reset_warning,
{
}

/// An unanswered warning changes nothing: with neither confirm nor cancel
/// the selection, the opened process and the window stay as they are; and
/// without confirm, neither the selection nor the opened process changes,
/// so an opened process is given up only on confirmation.
pub proof fn lemma_unanswered_warning_changes_nothing(v: SelectionView, confirm: bool, cancel: bool)
    ensures
        resolved(v, false, false) == v,
        !confirm ==> resolved(v, confirm, cancel).selected == v.selected,
        !confirm ==> resolved(v, confirm, cancel).has_opened == v.has_opened,
        !confirm ==> resolved(v, confirm, cancel).window.show_process_selector == v.window.show_process_selector,
        (v.has_opened && !resolved(v, confirm, cancel).has_opened) ==> confirm,
{
}

} // verus!
