//! The application-level view state.
//!
//! The kernel only needs to know which view is active: the login
//! screen, or a component-design session over a sketch document.  The
//! host shell observes the view and pushes its own notifications; the
//! transition logic itself lives here.

use vstd::prelude::*;

verus! {

/// A component-design session.
#[derive(Clone, PartialEq, Eq, Structural, Debug)]
pub struct ComponentDesigner {
}

/// Which view the application shows.
#[derive(Clone, PartialEq, Eq, Structural, Debug)]
pub enum AppView {
    LogInOrRegister,
    ComponentDesigner(ComponentDesigner),
}

/// The application state: the currently active view.
pub struct App {
    pub current_view: AppView,
}

impl App {
    /// A fresh application starts at the login view.
    pub fn new() -> (r: App)
        ensures
            r.current_view == AppView::LogInOrRegister,
    {
        App { current_view: AppView::LogInOrRegister }
    }

    /// Logging in opens a component-design session.
    pub fn log_in(&mut self)
        ensures
            final(self).current_view == AppView::ComponentDesigner(ComponentDesigner {  }),
    {
        self.current_view = AppView::ComponentDesigner(ComponentDesigner {  });
    }
}

} // verus!
