//! The menus of the program.

use vstd::prelude::*;

verus! {

/// What a menu entry does.
#[derive(Debug, Clone, Copy, PartialEq, Eq, Structural)]
pub enum MenuAction {
    About,
    OpenSettings,
    OpenSettingsFile,
    OpenDefaultSettings,
    OpenKeymap,
    OpenKeymapFile,
    OpenDefaultKeymap,
    Hide,
    HideOthers,
    ShowAll,
    Quit,
    NewWindow,
    OpenFiles,
    Open,
    OpenRecent,
    AddFolderToProject,
    CloseWindow,
    IncreaseUiFontSize,
    DecreaseUiFontSize,
    ResetUiFontSize,
    ToggleLeftDock,
    ToggleRightDock,
    ToggleBottomDock,
    ToggleAllDocks,
    GoBack,
    GoForward,
    Minimize,
    Zoom,
    OpenLicenses,
}

/// An entry of a menu.
#[derive(Debug, PartialEq, Eq)]
pub enum MenuItem {
    Action { label: &'static str, action: MenuAction },
    Separator,
    /// A menu that the system fills.
    Services,
    /// A menu inside the menu.
    Submenu { name: &'static str, items: Vec<(&'static str, Option<MenuAction>)> },
}

/// A menu.
#[derive(Debug, PartialEq, Eq)]
pub struct Menu {
    pub name: &'static str,
    pub items: Vec<MenuItem>,
}

#[verifier::ext_equal]
pub enum ItemModel {
    Action(Seq<char>, MenuAction),
    Separator,
    Services,
    Submenu(Seq<char>, Seq<(Seq<char>, Option<MenuAction>)>),
}

#[verifier::ext_equal]
pub struct MenuModel {
    pub name: Seq<char>,
    pub items: Seq<ItemModel>,
}

pub open spec fn sub_models(items: Seq<(&'static str, Option<MenuAction>)>) -> Seq<(Seq<char>, Option<MenuAction>)> {
    items.map_values(|i: (&'static str, Option<MenuAction>)| (i.0@, i.1))
}

impl View for MenuItem {
    type V = ItemModel;

    open spec fn view(&self) -> ItemModel {
        match self {
            MenuItem::Action { label, action } => ItemModel::Action(label@, *action),
            MenuItem::Separator => ItemModel::Separator,
            MenuItem::Services => ItemModel::Services,
            MenuItem::Submenu { name, items } => ItemModel::Submenu(name@, sub_models(items@)),
        }
    }
}

pub open spec fn item_models(items: Seq<MenuItem>) -> Seq<ItemModel> {
    items.map_values(|i: MenuItem| i@)
}

impl View for Menu {
    type V = MenuModel;

    open spec fn view(&self) -> MenuModel {
        MenuModel { name: self.name@, items: item_models(self.items@) }
    }
}

pub open spec fn menu_models(menus: Seq<Menu>) -> Seq<MenuModel> {
    menus.map_values(|m: Menu| m@)
}

fn add_item(items: &mut Vec<MenuItem>, item: MenuItem)
    ensures
        item_models(final(items)@) == item_models(old(items)@).push(item@),
{
    let ghost before = items@;
    let ghost new = item@;
    items.push(item);
    assert(item_models(items@) =~= item_models(before).push(new));
}

fn add_action(items: &mut Vec<MenuItem>, label: &'static str, action: MenuAction)
    ensures
        item_models(final(items)@) == item_models(old(items)@).push(ItemModel::Action(label@, action)),
{
    add_item(items, MenuItem::Action { label, action });
}

fn add_separator(items: &mut Vec<MenuItem>)
    ensures
        item_models(final(items)@) == item_models(old(items)@).push(ItemModel::Separator),
{
    add_item(items, MenuItem::Separator);
}

fn no_items() -> (r: Vec<MenuItem>)
    ensures
        item_models(r@) == Seq::<ItemModel>::empty(),
{
    let items: Vec<MenuItem> = Vec::new();
    assert(item_models(items@) =~= Seq::<ItemModel>::empty());
    items
}

/// The entries of the settings menu. One without an action is a separator.
pub open spec fn settings_items() -> Seq<(Seq<char>, Option<MenuAction>)> {
    seq![
        ("Open Settings"@, Some(MenuAction::OpenSettings)),
        ("Open Settings File"@, Some(MenuAction::OpenSettingsFile)),
        ("Open Default Settings"@, Some(MenuAction::OpenDefaultSettings)),
        (""@, None),
        ("Open Keymap"@, Some(MenuAction::OpenKeymap)),
        ("Open Keymap File"@, Some(MenuAction::OpenKeymapFile)),
        ("Open Default Key Bindings"@, Some(MenuAction::OpenDefaultKeymap)),
    ]
}

pub open spec fn program_items(macos: bool) -> Seq<ItemModel> {
    let start = Seq::empty().push(ItemModel::Action("About Som"@, MenuAction::About)).push(
        ItemModel::Separator,
    ).push(ItemModel::Submenu("Settings"@, settings_items())).push(ItemModel::Separator);
    let services = if macos {
        start.push(ItemModel::Services)
    } else {
        start
    };
    let hiding = services.push(ItemModel::Separator);
    let hidden = if macos {
        hiding.push(ItemModel::Action("Hide Som"@, MenuAction::Hide)).push(
            ItemModel::Action("Hide Others"@, MenuAction::HideOthers),
        ).push(ItemModel::Action("Show All"@, MenuAction::ShowAll))
    } else {
        hiding
    };
    hidden.push(ItemModel::Separator).push(ItemModel::Action("Quit Som"@, MenuAction::Quit))
}

fn program_menu(macos: bool) -> (r: Menu)
    ensures
        r@ == (MenuModel { name: "Som"@, items: program_items(macos) }),
{
    let mut items = no_items();
    add_action(&mut items, "About Som", MenuAction::About);
    add_separator(&mut items);
    let settings: Vec<(&'static str, Option<MenuAction>)> = vec![
        ("Open Settings", Some(MenuAction::OpenSettings)),
        ("Open Settings File", Some(MenuAction::OpenSettingsFile)),
        ("Open Default Settings", Some(MenuAction::OpenDefaultSettings)),
        ("", None),
        ("Open Keymap", Some(MenuAction::OpenKeymap)),
        ("Open Keymap File", Some(MenuAction::OpenKeymapFile)),
        ("Open Default Key Bindings", Some(MenuAction::OpenDefaultKeymap)),
    ];
    assert(sub_models(settings@) =~= settings_items());
    add_item(&mut items, MenuItem::Submenu { name: "Settings", items: settings });
    add_separator(&mut items);
    if macos {
        add_item(&mut items, MenuItem::Services);
    }
    add_separator(&mut items);
    if macos {
        add_action(&mut items, "Hide Som", MenuAction::Hide);
        add_action(&mut items, "Hide Others", MenuAction::HideOthers);
        add_action(&mut items, "Show All", MenuAction::ShowAll);
    }
    add_separator(&mut items);
    add_action(&mut items, "Quit Som", MenuAction::Quit);
    Menu { name: "Som", items }
}

pub open spec fn file_items(macos: bool) -> Seq<ItemModel> {
    let start = Seq::empty().push(ItemModel::Action("New Window"@, MenuAction::NewWindow)).push(
        ItemModel::Separator,
    );
    let opening = if macos {
        start.push(ItemModel::Action("Open…"@, MenuAction::Open))
    } else {
        start.push(ItemModel::Action("Open File..."@, MenuAction::OpenFiles)).push(
            ItemModel::Action("Open Folder..."@, MenuAction::Open),
        )
    };
    opening.push(ItemModel::Action("Open Recent..."@, MenuAction::OpenRecent)).push(ItemModel::Separator).push(
        ItemModel::Action("Add Folder to Project…"@, MenuAction::AddFolderToProject),
    ).push(ItemModel::Separator).push(ItemModel::Action("Close Window"@, MenuAction::CloseWindow))
}

fn file_menu(macos: bool) -> (r: Menu)
    ensures
        r@ == (MenuModel { name: "File"@, items: file_items(macos) }),
{
    let mut items = no_items();
    add_action(&mut items, "New Window", MenuAction::NewWindow);
    add_separator(&mut items);
    if macos {
        add_action(&mut items, "Open…", MenuAction::Open);
    } else {
        add_action(&mut items, "Open File...", MenuAction::OpenFiles);
        add_action(&mut items, "Open Folder...", MenuAction::Open);
    }
    add_action(&mut items, "Open Recent...", MenuAction::OpenRecent);
    add_separator(&mut items);
    add_action(&mut items, "Add Folder to Project…", MenuAction::AddFolderToProject);
    add_separator(&mut items);
    add_action(&mut items, "Close Window", MenuAction::CloseWindow);
    Menu { name: "File", items }
}

pub open spec fn view_items() -> Seq<ItemModel> {
    Seq::empty().push(ItemModel::Action("Zoom In"@, MenuAction::IncreaseUiFontSize)).push(
        ItemModel::Action("Zoom Out"@, MenuAction::DecreaseUiFontSize),
    ).push(ItemModel::Action("Reset Zoom"@, MenuAction::ResetUiFontSize)).push(ItemModel::Separator).push(
        ItemModel::Action("Toggle Left Dock"@, MenuAction::ToggleLeftDock),
    ).push(ItemModel::Action("Toggle Right Dock"@, MenuAction::ToggleRightDock)).push(
        ItemModel::Action("Toggle Bottom Dock"@, MenuAction::ToggleBottomDock),
    ).push(ItemModel::Action("Toggle All Docks"@, MenuAction::ToggleAllDocks))
}

fn view_menu() -> (r: Menu)
    ensures
        r@ == (MenuModel { name: "View"@, items: view_items() }),
{
    let mut items = no_items();
    add_action(&mut items, "Zoom In", MenuAction::IncreaseUiFontSize);
    add_action(&mut items, "Zoom Out", MenuAction::DecreaseUiFontSize);
    add_action(&mut items, "Reset Zoom", MenuAction::ResetUiFontSize);
    add_separator(&mut items);
    add_action(&mut items, "Toggle Left Dock", MenuAction::ToggleLeftDock);
    add_action(&mut items, "Toggle Right Dock", MenuAction::ToggleRightDock);
    add_action(&mut items, "Toggle Bottom Dock", MenuAction::ToggleBottomDock);
    add_action(&mut items, "Toggle All Docks", MenuAction::ToggleAllDocks);
    Menu { name: "View", items }
}

pub open spec fn go_items() -> Seq<ItemModel> {
    Seq::empty().push(ItemModel::Action("Back"@, MenuAction::GoBack)).push(
        ItemModel::Action("Forward"@, MenuAction::GoForward),
    )
}

pub open spec fn window_items() -> Seq<ItemModel> {
    Seq::empty().push(ItemModel::Action("Minimize"@, MenuAction::Minimize)).push(
        ItemModel::Action("Zoom"@, MenuAction::Zoom),
    ).push(ItemModel::Separator)
}

pub open spec fn help_items() -> Seq<ItemModel> {
    Seq::empty().push(ItemModel::Action("View Dependency Licenses"@, MenuAction::OpenLicenses))
}

/// The menus, from left to right.
pub open spec fn all_menus(macos: bool) -> Seq<MenuModel> {
    seq![
        MenuModel { name: "Som"@, items: program_items(macos) },
        MenuModel { name: "File"@, items: file_items(macos) },
        MenuModel { name: "View"@, items: view_items() },
        MenuModel { name: "Go"@, items: go_items() },
        MenuModel { name: "Window"@, items: window_items() },
        MenuModel { name: "Help"@, items: help_items() },
    ]
}

/// The menus of the program. On a Mac there is also what a Mac expects.
pub fn app_menus(macos: bool) -> (r: Vec<Menu>)
    ensures
        menu_models(r@) == all_menus(macos),
{
    let mut go = no_items();
    add_action(&mut go, "Back", MenuAction::GoBack);
    add_action(&mut go, "Forward", MenuAction::GoForward);
    let mut window = no_items();
    add_action(&mut window, "Minimize", MenuAction::Minimize);
    add_action(&mut window, "Zoom", MenuAction::Zoom);
    add_separator(&mut window);
    let mut help = no_items();
    add_action(&mut help, "View Dependency Licenses", MenuAction::OpenLicenses);
    let menus = vec![
        program_menu(macos),
        file_menu(macos),
        view_menu(),
        Menu { name: "Go", items: go },
        Menu { name: "Window", items: window },
        Menu { name: "Help", items: help },
    ];
    assert(menu_models(menus@) =~= all_menus(macos));
    menus
}

/// What the settings menu offers: the settings and the keys, each with the file of the user and the one
/// that holds where nothing is set.
pub open spec fn settings_entries() -> Seq<(Seq<char>, Option<MenuAction>)> {
    seq![
        ("Open Settings"@, Some(MenuAction::OpenSettings)),
        ("Open Settings File"@, Some(MenuAction::OpenSettingsFile)),
        ("Open Default Settings"@, Some(MenuAction::OpenDefaultSettings)),
        (""@, None),
        ("Open Keymap"@, Some(MenuAction::OpenKeymap)),
        ("Open Keymap File"@, Some(MenuAction::OpenKeymapFile)),
        ("Open Default Key Bindings"@, Some(MenuAction::OpenDefaultKeymap)),
    ]
}

/// Every entry of the menus of a Mac does what its label says.
pub proof fn lemma_mac_menus()
    ensures
        all_menus(true).len() == 6,
        all_menus(true)[0].name == "Som"@,
        all_menus(true)[0].items == seq![
            ItemModel::Action("About Som"@, MenuAction::About),
            ItemModel::Separator,
            ItemModel::Submenu("Settings"@, settings_entries()),
            ItemModel::Separator,
            ItemModel::Services,
            ItemModel::Separator,
            ItemModel::Action("Hide Som"@, MenuAction::Hide),
            ItemModel::Action("Hide Others"@, MenuAction::HideOthers),
            ItemModel::Action("Show All"@, MenuAction::ShowAll),
            ItemModel::Separator,
            ItemModel::Action("Quit Som"@, MenuAction::Quit),
        ],
        all_menus(true)[1].name == "File"@,
        all_menus(true)[1].items == seq![
            ItemModel::Action("New Window"@, MenuAction::NewWindow),
            ItemModel::Separator,
            ItemModel::Action("Open…"@, MenuAction::Open),
            ItemModel::Action("Open Recent..."@, MenuAction::OpenRecent),
            ItemModel::Separator,
            ItemModel::Action("Add Folder to Project…"@, MenuAction::AddFolderToProject),
            ItemModel::Separator,
            ItemModel::Action("Close Window"@, MenuAction::CloseWindow),
        ],
        all_menus(true)[2].name == "View"@,
        all_menus(true)[2].items == seq![
            ItemModel::Action("Zoom In"@, MenuAction::IncreaseUiFontSize),
            ItemModel::Action("Zoom Out"@, MenuAction::DecreaseUiFontSize),
            ItemModel::Action("Reset Zoom"@, MenuAction::ResetUiFontSize),
            ItemModel::Separator,
            ItemModel::Action("Toggle Left Dock"@, MenuAction::ToggleLeftDock),
            ItemModel::Action("Toggle Right Dock"@, MenuAction::ToggleRightDock),
            ItemModel::Action("Toggle Bottom Dock"@, MenuAction::ToggleBottomDock),
            ItemModel::Action("Toggle All Docks"@, MenuAction::ToggleAllDocks),
        ],
        all_menus(true)[3].name == "Go"@,
        all_menus(true)[3].items == seq![
            ItemModel::Action("Back"@, MenuAction::GoBack),
            ItemModel::Action("Forward"@, MenuAction::GoForward),
        ],
        all_menus(true)[4].name == "Window"@,
        all_menus(true)[4].items == seq![
            ItemModel::Action("Minimize"@, MenuAction::Minimize),
            ItemModel::Action("Zoom"@, MenuAction::Zoom),
            ItemModel::Separator,
        ],
        all_menus(true)[5].name == "Help"@,
        all_menus(true)[5].items == seq![
            ItemModel::Action("View Dependency Licenses"@, MenuAction::OpenLicenses),
        ],
{
    assert(all_menus(true)[0].items =~= seq![
        ItemModel::Action("About Som"@, MenuAction::About),
        ItemModel::Separator,
        ItemModel::Submenu("Settings"@, settings_entries()),
        ItemModel::Separator,
        ItemModel::Services,
        ItemModel::Separator,
        ItemModel::Action("Hide Som"@, MenuAction::Hide),
        ItemModel::Action("Hide Others"@, MenuAction::HideOthers),
        ItemModel::Action("Show All"@, MenuAction::ShowAll),
        ItemModel::Separator,
        ItemModel::Action("Quit Som"@, MenuAction::Quit),
    ]);
    assert(all_menus(true)[1].items =~= seq![
        ItemModel::Action("New Window"@, MenuAction::NewWindow),
        ItemModel::Separator,
        ItemModel::Action("Open…"@, MenuAction::Open),
        ItemModel::Action("Open Recent..."@, MenuAction::OpenRecent),
        ItemModel::Separator,
        ItemModel::Action("Add Folder to Project…"@, MenuAction::AddFolderToProject),
        ItemModel::Separator,
        ItemModel::Action("Close Window"@, MenuAction::CloseWindow),
    ]);
    assert(all_menus(true)[2].items =~= seq![
        ItemModel::Action("Zoom In"@, MenuAction::IncreaseUiFontSize),
        ItemModel::Action("Zoom Out"@, MenuAction::DecreaseUiFontSize),
        ItemModel::Action("Reset Zoom"@, MenuAction::ResetUiFontSize),
        ItemModel::Separator,
        ItemModel::Action("Toggle Left Dock"@, MenuAction::ToggleLeftDock),
        ItemModel::Action("Toggle Right Dock"@, MenuAction::ToggleRightDock),
        ItemModel::Action("Toggle Bottom Dock"@, MenuAction::ToggleBottomDock),
        ItemModel::Action("Toggle All Docks"@, MenuAction::ToggleAllDocks),
    ]);
    assert(all_menus(true)[3].items =~= seq![
        ItemModel::Action("Back"@, MenuAction::GoBack),
        ItemModel::Action("Forward"@, MenuAction::GoForward),
    ]);
    assert(all_menus(true)[4].items =~= seq![
        ItemModel::Action("Minimize"@, MenuAction::Minimize),
        ItemModel::Action("Zoom"@, MenuAction::Zoom),
        ItemModel::Separator,
    ]);
    assert(all_menus(true)[5].items =~= seq![
        ItemModel::Action("View Dependency Licenses"@, MenuAction::OpenLicenses),
    ]);
}

/// Every entry of the menus of any other system does what its label says.
pub proof fn lemma_other_menus()
    ensures
        all_menus(false).len() == 6,
        all_menus(false)[0].name == "Som"@,
        all_menus(false)[0].items == seq![
            ItemModel::Action("About Som"@, MenuAction::About),
            ItemModel::Separator,
            ItemModel::Submenu("Settings"@, settings_entries()),
            ItemModel::Separator,
            ItemModel::Separator,
            ItemModel::Separator,
            ItemModel::Action("Quit Som"@, MenuAction::Quit),
        ],
        all_menus(false)[1].name == "File"@,
        all_menus(false)[1].items == seq![
            ItemModel::Action("New Window"@, MenuAction::NewWindow),
            ItemModel::Separator,
            ItemModel::Action("Open File..."@, MenuAction::OpenFiles),
            ItemModel::Action("Open Folder..."@, MenuAction::Open),
            ItemModel::Action("Open Recent..."@, MenuAction::OpenRecent),
            ItemModel::Separator,
            ItemModel::Action("Add Folder to Project…"@, MenuAction::AddFolderToProject),
            ItemModel::Separator,
            ItemModel::Action("Close Window"@, MenuAction::CloseWindow),
        ],
        all_menus(false)[2].name == "View"@,
        all_menus(false)[2].items == seq![
            ItemModel::Action("Zoom In"@, MenuAction::IncreaseUiFontSize),
            ItemModel::Action("Zoom Out"@, MenuAction::DecreaseUiFontSize),
            ItemModel::Action("Reset Zoom"@, MenuAction::ResetUiFontSize),
            ItemModel::Separator,
            ItemModel::Action("Toggle Left Dock"@, MenuAction::ToggleLeftDock),
            ItemModel::Action("Toggle Right Dock"@, MenuAction::ToggleRightDock),
            ItemModel::Action("Toggle Bottom Dock"@, MenuAction::ToggleBottomDock),
            ItemModel::Action("Toggle All Docks"@, MenuAction::ToggleAllDocks),
        ],
        all_menus(false)[3].name == "Go"@,
        all_menus(false)[3].items == seq![
            ItemModel::Action("Back"@, MenuAction::GoBack),
            ItemModel::Action("Forward"@, MenuAction::GoForward),
        ],
        all_menus(false)[4].name == "Window"@,
        all_menus(false)[4].items == seq![
            ItemModel::Action("Minimize"@, MenuAction::Minimize),
            ItemModel::Action("Zoom"@, MenuAction::Zoom),
            ItemModel::Separator,
        ],
        all_menus(false)[5].name == "Help"@,
        all_menus(false)[5].items == seq![
            ItemModel::Action("View Dependency Licenses"@, MenuAction::OpenLicenses),
        ],
{
    assert(all_menus(false)[0].items =~= seq![
        ItemModel::Action("About Som"@, MenuAction::About),
        ItemModel::Separator,
        ItemModel::Submenu("Settings"@, settings_entries()),
        ItemModel::Separator,
        ItemModel::Separator,
        ItemModel::Separator,
        ItemModel::Action("Quit Som"@, MenuAction::Quit),
    ]);
    assert(all_menus(false)[1].items =~= seq![
        ItemModel::Action("New Window"@, MenuAction::NewWindow),
        ItemModel::Separator,
        ItemModel::Action("Open File..."@, MenuAction::OpenFiles),
        ItemModel::Action("Open Folder..."@, MenuAction::Open),
        ItemModel::Action("Open Recent..."@, MenuAction::OpenRecent),
        ItemModel::Separator,
        ItemModel::Action("Add Folder to Project…"@, MenuAction::AddFolderToProject),
        ItemModel::Separator,
        ItemModel::Action("Close Window"@, MenuAction::CloseWindow),
    ]);
    assert(all_menus(false)[2].items =~= seq![
        ItemModel::Action("Zoom In"@, MenuAction::IncreaseUiFontSize),
        ItemModel::Action("Zoom Out"@, MenuAction::DecreaseUiFontSize),
        ItemModel::Action("Reset Zoom"@, MenuAction::ResetUiFontSize),
        ItemModel::Separator,
        ItemModel::Action("Toggle Left Dock"@, MenuAction::ToggleLeftDock),
        ItemModel::Action("Toggle Right Dock"@, MenuAction::ToggleRightDock),
        ItemModel::Action("Toggle Bottom Dock"@, MenuAction::ToggleBottomDock),
        ItemModel::Action("Toggle All Docks"@, MenuAction::ToggleAllDocks),
    ]);
    assert(all_menus(false)[3].items =~= seq![
        ItemModel::Action("Back"@, MenuAction::GoBack),
        ItemModel::Action("Forward"@, MenuAction::GoForward),
    ]);
    assert(all_menus(false)[4].items =~= seq![
        ItemModel::Action("Minimize"@, MenuAction::Minimize),
        ItemModel::Action("Zoom"@, MenuAction::Zoom),
        ItemModel::Separator,
    ]);
    assert(all_menus(false)[5].items =~= seq![
        ItemModel::Action("View Dependency Licenses"@, MenuAction::OpenLicenses),
    ]);
}

} // verus!
