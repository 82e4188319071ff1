use vstd::prelude::*;

verus! {

/// The tabs of the application window, in navigation order.
#[derive(Clone, Copy, PartialEq, Eq, Debug, Structural)]
pub enum Tab {
    Summary,
    Performance,
    Processes,
    SystemInfo,
    StartupApps,
    Users,
    Services,
    Settings,
}

/// The caption shown for each tab in the navigation panel.
pub open spec fn tab_label(t: Tab) -> Seq<char> {
    match t {
        Tab::Summary => "📊  Обзор"@,
        Tab::Performance => "📈  Производительность"@,
        Tab::Processes => "📋  Процессы"@,
        Tab::SystemInfo => "ℹ  Система"@,
        Tab::StartupApps => "🚀  Автозагрузка"@,
        Tab::Users => "👤  Пользователи"@,
        Tab::Services => "⚙  Службы"@,
        Tab::Settings => "🔧  Настройки"@,
    }
}

/// All tabs, in the order in which the navigation panel lists them.
pub open spec fn all_tabs() -> Seq<Tab> {
    seq![
        Tab::Summary,
        Tab::Performance,
        Tab::Processes,
        Tab::SystemInfo,
        Tab::StartupApps,
        Tab::Users,
        Tab::Services,
        Tab::Settings,
    ]
}

impl Tab {
    /// The caption of this tab.
    pub fn label(&self) -> (res: &'static str)
        ensures
            res@ == tab_label(*self),
    {
        match self {
            Tab::Summary => "📊  Обзор",
            Tab::Performance => "📈  Производительность",
            Tab::Processes => "📋  Процессы",
            Tab::SystemInfo => "ℹ  Система",
            Tab::StartupApps => "🚀  Автозагрузка",
            Tab::Users => "👤  Пользователи",
            Tab::Services => "⚙  Службы",
            Tab::Settings => "🔧  Настройки",
        }
    }

    /// Every tab exactly once, in navigation order.
    pub fn all() -> (res: &'static [Tab])
        ensures
            res@ == all_tabs(),
    {
        &[
            Tab::Summary,
            Tab::Performance,
            Tab::Processes,
            Tab::SystemInfo,
            Tab::StartupApps,
            Tab::Users,
            Tab::Services,
            Tab::Settings,
        ]
    }
}


/// The navigation panel lists every tab, and each of them once.
pub proof fn lemma_all_tabs_once(t: Tab)
    ensures
        all_tabs().contains(t),
        forall|i: int, j: int|
            0 <= i < j < all_tabs().len() ==> #[trigger] all_tabs()[i] != #[trigger] all_tabs()[j],
{
    let s = all_tabs();
    let k: int = match t {
        Tab::Summary => 0,
        Tab::Performance => 1,
        Tab::Processes => 2,
        Tab::SystemInfo => 3,
        Tab::StartupApps => 4,
        Tab::Users => 5,
        Tab::Services => 6,
        Tab::Settings => 7,
    };
    assert(s[k] == t);
}

} // verus!
