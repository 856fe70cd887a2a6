//! Buttons and menus, and what pressing them does.
use vstd::prelude::*;
use vstd::string::*;

use crate::formatting;
use crate::text;

verus! {

// ---------------------------------------------------------------------------
// Components
// ---------------------------------------------------------------------------

#[derive(Debug, Clone, Copy, PartialEq, Eq, Structural)]
pub enum ButtonStyle {
    Primary,
    Secondary,
    Success,
    Danger,
}

pub struct Button {
    pub custom_id: String,
    pub label: String,
    pub style: ButtonStyle,
    pub disabled: bool,
}

/// The contents of a [`Button`].
#[verifier::ext_equal]
pub struct ButtonText {
    pub custom_id: Seq<char>,
    pub label: Seq<char>,
    pub style: ButtonStyle,
    pub disabled: bool,
}

impl View for Button {
    type V = ButtonText;

    open spec fn view(&self) -> ButtonText {
        ButtonText {
            custom_id: self.custom_id@,
            label: self.label@,
            style: self.style,
            disabled: self.disabled,
        }
    }
}

pub open spec fn button_texts(v: Seq<Button>) -> Seq<ButtonText> {
    Seq::new(v.len(), |i: int| v[i]@)
}

pub struct SelectOption {
    pub label: String,
    pub value: String,
    pub description: Option<String>,
    pub selected: bool,
}

/// The contents of a [`SelectOption`].
#[verifier::ext_equal]
pub struct OptionText {
    pub label: Seq<char>,
    pub value: Seq<char>,
    pub description: Option<Seq<char>>,
    pub selected: bool,
}

impl View for SelectOption {
    type V = OptionText;

    open spec fn view(&self) -> OptionText {
        OptionText {
            label: self.label@,
            value: self.value@,
            description: text::opt_text(self.description),
            selected: self.selected,
        }
    }
}

pub open spec fn option_texts(v: Seq<SelectOption>) -> Seq<OptionText> {
    Seq::new(v.len(), |i: int| v[i]@)
}

/// A menu. One without options of its own offers channels.
pub struct Menu {
    pub custom_id: String,
    pub placeholder: String,
    pub min_values: u8,
    pub max_values: u8,
    pub options: Option<Vec<SelectOption>>,
}

/// The contents of a [`Menu`].
#[verifier::ext_equal]
pub struct MenuText {
    pub custom_id: Seq<char>,
    pub placeholder: Seq<char>,
    pub min_values: u8,
    pub max_values: u8,
    pub options: Option<Seq<OptionText>>,
}

impl View for Menu {
    type V = MenuText;

    open spec fn view(&self) -> MenuText {
        MenuText {
            custom_id: self.custom_id@,
            placeholder: self.placeholder@,
            min_values: self.min_values,
            max_values: self.max_values,
            options: match self.options {
                Some(v) => Some(option_texts(v@)),
                None => None,
            },
        }
    }
}

/// A row of components.
pub enum Row {
    Buttons(Vec<Button>),
    Menu(Menu),
}

/// The contents of a [`Row`].
#[verifier::ext_equal]
pub enum RowText {
    Buttons(Seq<ButtonText>),
    Menu(MenuText),
}

impl View for Row {
    type V = RowText;

    open spec fn view(&self) -> RowText {
        match *self {
            Row::Buttons(v) => RowText::Buttons(button_texts(v@)),
            Row::Menu(m) => RowText::Menu(m@),
        }
    }
}

pub open spec fn row_texts(v: Seq<Row>) -> Seq<RowText> {
    Seq::new(v.len(), |i: int| v[i]@)
}

pub fn rows() -> (v: Vec<Row>)
    ensures
        row_texts(v@) == Seq::<RowText>::empty(),
{
    let v: Vec<Row> = Vec::new();
    assert(row_texts(v@) =~= Seq::<RowText>::empty());
    v
}

pub fn push_row(v: &mut Vec<Row>, row: Row)
    ensures
        row_texts(final(v)@) == row_texts(old(v)@).push(row@),
{
    let ghost before = v@;
    v.push(row);
    assert(row_texts(v@) =~= row_texts(before).push(row@));
}

pub fn push_button(v: &mut Vec<Button>, button: Button)
    ensures
        button_texts(final(v)@) == button_texts(old(v)@).push(button@),
{
    let ghost before = v@;
    v.push(button);
    assert(button_texts(v@) =~= button_texts(before).push(button@));
}

pub fn push_option(v: &mut Vec<SelectOption>, option: SelectOption)
    ensures
        option_texts(final(v)@) == option_texts(old(v)@).push(option@),
{
    let ghost before = v@;
    v.push(option);
    assert(option_texts(v@) =~= option_texts(before).push(option@));
}

pub fn button(custom_id: String, label: &str, style: ButtonStyle, disabled: bool) -> (b: Button)
    ensures
        b@ == (ButtonText { custom_id: custom_id@, label: label@, style, disabled }),
{
    Button { custom_id, label: text::copy(label), style, disabled }
}

// ---------------------------------------------------------------------------
// The pager with a menu
// ---------------------------------------------------------------------------

/// The menu of a pager.
pub struct NavSelect {
    pub custom_id: &'static str,
    pub placeholder: &'static str,
    pub options: Vec<&'static str>,
}

/// Time frames, in the order of their positions.
pub fn timeframe_select() -> (s: NavSelect)
    ensures
        s.custom_id@ == "nav:range"@,
        s.placeholder@ == "Timeframe"@,
        crate::models::str_texts(s.options@) == timeframes(),
{
    let options = vec!["7 days", "30 days", "60 days", "90 days", "All time"];
    assert(crate::models::str_texts(options@) =~= timeframes());
    NavSelect { custom_id: "nav:range", placeholder: "Timeframe", options }
}

/// The windows that are offered.
pub open spec fn timeframes() -> Seq<Seq<char>> {
    seq!["7 days"@, "30 days"@, "60 days"@, "90 days"@, "All time"@]
}

/// Leaderboards, in the order of their positions.
pub fn board_select() -> (s: NavSelect)
    ensures
        s.custom_id@ == "nav:board"@,
        s.placeholder@ == "Board"@,
        crate::models::str_texts(s.options@) == board_names(),
{
    let options = vec!["PvP kills", "K/D", "Deaths", "Messages", "Joins", "Playtime"];
    assert(crate::models::str_texts(options@) =~= board_names());
    NavSelect { custom_id: "nav:board", placeholder: "Board", options }
}

/// The boards that are offered.
pub open spec fn board_names() -> Seq<Seq<char>> {
    seq!["PvP kills"@, "K/D"@, "Deaths"@, "Messages"@, "Joins"@, "Playtime"@]
}

/// Whether a page is the last.
pub open spec fn is_last(page: int, page_count: int) -> bool {
    page + 1 >= page_count || page_count <= 1
}

/// The buttons of a pager.
pub open spec fn nav_buttons(page: int, page_count: int) -> Seq<ButtonText> {
    let first = page == 0;
    let last = is_last(page, page_count);
    seq![
        ButtonText {
            custom_id: "page:first"@,
            label: "<<"@,
            style: ButtonStyle::Success,
            disabled: first,
        },
        ButtonText {
            custom_id: "page:prev"@,
            label: "<"@,
            style: ButtonStyle::Primary,
            disabled: first,
        },
        ButtonText {
            custom_id: "page:next"@,
            label: ">"@,
            style: ButtonStyle::Primary,
            disabled: last,
        },
        ButtonText {
            custom_id: "page:last"@,
            label: ">>"@,
            style: ButtonStyle::Success,
            disabled: last,
        },
        ButtonText {
            custom_id: "page:close"@,
            label: "X"@,
            style: ButtonStyle::Danger,
            disabled: false,
        },
    ]
}

fn stats_nav_row(page: u64, page_count: u64) -> (r: Row)
    ensures
        r@ == RowText::Buttons(nav_buttons(page as int, page_count as int)),
{
    let first = page == 0;
    let last = page_count <= 1 || page >= page_count - 1;
    let mut v: Vec<Button> = Vec::new();
    push_button(&mut v, button(text::copy("page:first"), "<<", ButtonStyle::Success, first));
    push_button(&mut v, button(text::copy("page:prev"), "<", ButtonStyle::Primary, first));
    push_button(&mut v, button(text::copy("page:next"), ">", ButtonStyle::Primary, last));
    push_button(&mut v, button(text::copy("page:last"), ">>", ButtonStyle::Success, last));
    push_button(&mut v, button(text::copy("page:close"), "X", ButtonStyle::Danger, false));
    assert(button_texts(v@) =~= nav_buttons(page as int, page_count as int));
    Row::Buttons(v)
}

pub open spec fn select_options(options: Seq<&'static str>, selected: int) -> Seq<OptionText> {
    Seq::new(
        options.len(),
        |i: int|
            OptionText {
                label: options[i]@,
                value: text::decimal(i),
                description: None,
                selected: i == selected,
            },
    )
}

pub open spec fn select_menu(select: NavSelect, selected: int) -> MenuText {
    MenuText {
        custom_id: select.custom_id@,
        placeholder: select.placeholder@,
        min_values: 1,
        max_values: 1,
        options: Some(select_options(select.options@, selected)),
    }
}

fn stats_select_row(select: &NavSelect, selected: u64) -> (r: Row)
    ensures
        r@ == RowText::Menu(select_menu(*select, selected as int)),
{
    let ghost goal = select_options(select.options@, selected as int);
    let mut v: Vec<SelectOption> = Vec::new();
    assert(option_texts(v@) =~= goal.take(0));
    for i in 0..select.options.len()
        invariant
            goal == select_options(select.options@, selected as int),
            option_texts(v@) == goal.take(i as int),
    {
        let option = SelectOption {
            label: text::copy(select.options[i]),
            value: text::number(i as u64),
            description: None,
            selected: i as u64 == selected,
        };
        assert(goal[i as int] =~= option@);
        push_option(&mut v, option);
        assert(option_texts(v@) =~= goal.take(i + 1));
    }
    assert(goal.take(goal.len() as int) =~= goal);
    Row::Menu(
        Menu {
            custom_id: text::copy(select.custom_id),
            placeholder: text::copy(select.placeholder),
            min_values: 1,
            max_values: 1,
            options: Some(v),
        },
    )
}

/// The rows of a pager: its menu, where it has one, and its buttons.
pub open spec fn nav_rows(page: int, page_count: int, select: Option<NavSelect>, selected: int) -> Seq<
    RowText,
> {
    let buttons = RowText::Buttons(nav_buttons(page, page_count));
    match select {
        Some(s) => seq![RowText::Menu(select_menu(s, selected)), buttons],
        None => seq![buttons],
    }
}

pub fn nav_pager_rows(page: u64, page_count: u64, select: &Option<NavSelect>, selected: u64) -> (r:
    Vec<Row>)
    ensures
        row_texts(r@) == nav_rows(page as int, page_count as int, *select, selected as int),
{
    let mut r = rows();
    if let Some(s) = select {
        push_row(&mut r, stats_select_row(s, selected));
    }
    push_row(&mut r, stats_nav_row(page, page_count));
    r
}

/// Where a pager stands.
#[derive(Debug, Clone, Copy, PartialEq, Eq, Structural)]
pub struct NavState {
    pub page: u64,
    pub page_count: u64,
    pub select_idx: u64,
    pub select_count: u64,
}

/// What was pressed.
pub enum NavPress {
    /// A menu, with the first of its values.
    Menu(Option<String>),
    /// A button.
    Button(String),
    Other,
}

/// The position that a value of the menu means, where it is one.
pub open spec fn picked(value: Option<Seq<char>>, select_count: int) -> Option<int> {
    match value {
        Some(v) => match text::parsed_u64(v) {
            Some(i) if select_count == 0 || i < select_count => Some(i),
            _ => None,
        },
        None => None,
    }
}

pub open spec fn last_page(page_count: int) -> int {
    if page_count > 0 {
        page_count - 1
    } else {
        0
    }
}

/// Where a button leads.
pub open spec fn turned(page: int, page_count: int, id: Seq<char>) -> int {
    if id == "page:first"@ {
        0
    } else if id == "page:prev"@ {
        if page > 0 {
            page - 1
        } else {
            0
        }
    } else if id == "page:next"@ {
        if page + 1 < last_page(page_count) {
            page + 1
        } else {
            last_page(page_count)
        }
    } else if id == "page:last"@ {
        last_page(page_count)
    } else {
        page
    }
}

/// Where the pager stands after a press, and whether it is closed.
pub open spec fn nav_pressed(s: NavState, press: NavPress) -> (int, int, bool) {
    match press {
        NavPress::Menu(value) => match picked(text::opt_text(value), s.select_count as int) {
            Some(i) if i != s.select_idx => (0, i, false),
            _ => (s.page as int, s.select_idx as int, false),
        },
        NavPress::Button(id) => if id@ == "page:close"@ {
            (s.page as int, s.select_idx as int, true)
        } else {
            (turned(s.page as int, s.page_count as int, id@), s.select_idx as int, false)
        },
        NavPress::Other => (s.page as int, s.select_idx as int, false),
    }
}

impl NavState {
    /// Before the first page is shown.
    pub fn start(start_page: u64, start_select: u64, select_count: u64) -> (s: Self)
        ensures
            s.page == start_page,
            s.page_count == 1,
            s.select_count == select_count,
            s.select_idx == (if select_count == 0 {
                0
            } else if start_select < select_count {
                start_select as int
            } else {
                select_count - 1
            }),
    {
        NavState {
            page: start_page,
            page_count: 1,
            select_idx: if select_count == 0 {
                0
            } else if start_select < select_count {
                start_select
            } else {
                select_count - 1
            },
            select_count,
        }
    }

    /// A page came back, which says how many there are.
    pub fn rendered(&mut self, page_count: u64)
        ensures
            final(self).page_count == (if page_count > 1 {
                page_count
            } else {
                1
            }),
            final(self).page == (if old(self).page < final(self).page_count {
                old(self).page as int
            } else {
                final(self).page_count - 1
            }),
            final(self).page < final(self).page_count,
            final(self).select_idx == old(self).select_idx,
            final(self).select_count == old(self).select_count,
    {
        self.page_count = if page_count > 1 {
            page_count
        } else {
            1
        };
        if self.page >= self.page_count {
            self.page = self.page_count - 1;
        }
    }

    /// Takes in a press, and says whether the pager is closed.
    pub fn press(&mut self, press: &NavPress) -> (closed: bool)
        ensures
            (final(self).page as int, final(self).select_idx as int, closed) == nav_pressed(
                *old(self),
                *press,
            ),
            final(self).page_count == old(self).page_count,
            final(self).select_count == old(self).select_count,
    {
        match press {
            NavPress::Menu(value) => {
                if let Some(v) = value {
                    if let Some(i) = text::parse_u64(v) {
                        if (self.select_count == 0 || i < self.select_count) && i
                            != self.select_idx {
                            self.select_idx = i;
                            self.page = 0;
                        }
                    }
                }
                false
            },
            NavPress::Button(id) => {
                if text::same(id, "page:close") {
                    return true;
                }
                let last: u64 = if self.page_count > 0 {
                    self.page_count - 1
                } else {
                    0
                };
                if text::same(id, "page:first") {
                    self.page = 0;
                } else if text::same(id, "page:prev") {
                    if self.page > 0 {
                        self.page = self.page - 1;
                    }
                } else if text::same(id, "page:next") {
                    if self.page < last {
                        self.page = self.page + 1;
                    } else {
                        self.page = last;
                    }
                } else if text::same(id, "page:last") {
                    self.page = last;
                }
                false
            },
            NavPress::Other => false,
        }
    }
}

/// A pager never leaves its pages or its menu, whatever is pressed.
pub proof fn lemma_pager_stays_inside(s: NavState, press: NavPress)
    requires
        s.page < s.page_count,
        s.select_idx < s.select_count,
    ensures
        0 <= nav_pressed(s, press).0 < s.page_count,
        nav_pressed(s, press).1 < s.select_count,
{
}

/// Who may press.
pub open spec fn not_yours(verb: Seq<char>, author: Seq<char>, command: Seq<char>) -> Seq<char> {
    "Only "@ + author + " can "@ + verb + " this one. Run `/"@ + command + "` to get your own."@
}

/// What somebody else is told who presses.
pub fn only_the_invoker(picks: bool, author: &str, command: &str) -> (r: String)
    ensures
        r@ == not_yours(
            if picks {
                "pick on"@
            } else {
                "page"@
            },
            author@,
            command@,
        ),
{
    let verb: &str = if picks {
        "pick on"
    } else {
        "page"
    };
    let mut s = text::cat6("Only ", author, " can ", verb, " this one. Run `/", command);
    s.append("` to get your own.");
    s
}

// ---------------------------------------------------------------------------
// The pager with tabs
// ---------------------------------------------------------------------------

/// How many buttons a row holds.
pub const ROW_BUTTONS: usize = 5;

/// Buttons to walk through pages, with their place in the middle.
pub open spec fn walk_buttons(prefix: Seq<char>, index: int, count: int) -> Seq<ButtonText> {
    let first = index == 0;
    let last = index + 1 >= count;
    seq![
        ButtonText {
            custom_id: prefix + ":first"@,
            label: "First"@,
            style: ButtonStyle::Secondary,
            disabled: first,
        },
        ButtonText {
            custom_id: prefix + ":prev"@,
            label: "Previous"@,
            style: ButtonStyle::Secondary,
            disabled: first,
        },
        ButtonText {
            custom_id: prefix + ":indicator"@,
            label: text::decimal(index + 1) + " / "@ + text::decimal(count),
            style: ButtonStyle::Secondary,
            disabled: true,
        },
        ButtonText {
            custom_id: prefix + ":next"@,
            label: "Next"@,
            style: ButtonStyle::Secondary,
            disabled: last,
        },
        ButtonText {
            custom_id: prefix + ":last"@,
            label: "Last"@,
            style: ButtonStyle::Secondary,
            disabled: last,
        },
    ]
}

fn nav_row(prefix: &str, index: u64, count: u64) -> (r: Row)
    requires
        index < u64::MAX,
    ensures
        r@ == RowText::Buttons(walk_buttons(prefix@, index as int, count as int)),
{
    let first = index == 0;
    let last = index + 1 >= count;
    let place = text::cat3(&text::number(index + 1), " / ", &text::number(count));
    let style = ButtonStyle::Secondary;
    let mut v: Vec<Button> = Vec::new();
    push_button(&mut v, button(text::cat2(prefix, ":first"), "First", style, first));
    push_button(&mut v, button(text::cat2(prefix, ":prev"), "Previous", style, first));
    push_button(&mut v, button(text::cat2(prefix, ":indicator"), &place, style, true));
    push_button(&mut v, button(text::cat2(prefix, ":next"), "Next", style, last));
    push_button(&mut v, button(text::cat2(prefix, ":last"), "Last", style, last));
    assert(button_texts(v@) =~= walk_buttons(prefix@, index as int, count as int));
    Row::Buttons(v)
}

/// The button of a tab. That of the open one is marked and cannot be pressed.
pub open spec fn tab_button(label: Seq<char>, index: int, page: int) -> ButtonText {
    ButtonText {
        custom_id: "page:"@ + text::decimal(index),
        label,
        style: if index == page {
            ButtonStyle::Primary
        } else {
            ButtonStyle::Secondary
        },
        disabled: index == page,
    }
}

/// The buttons of the tabs from one position to another.
pub open spec fn tab_buttons(tabs: Seq<&'static str>, from: int, to: int, page: int) -> Seq<ButtonText> {
    Seq::new(
        (to - from) as nat,
        |i: int| tab_button(tabs[from + i]@, from + i, page),
    )
}

/// The rows of the tabs from a position on, as many tabs to a row as it holds.
pub open spec fn tab_rows(tabs: Seq<&'static str>, from: int, page: int) -> Seq<RowText>
    decreases tabs.len() - from,
{
    if from >= tabs.len() {
        Seq::empty()
    } else {
        let to = if from + ROW_BUTTONS < tabs.len() {
            from + ROW_BUTTONS
        } else {
            tabs.len() as int
        };
        seq![RowText::Buttons(tab_buttons(tabs, from, to, page))] + tab_rows(tabs, to, page)
    }
}

pub open spec fn refresh_button() -> ButtonText {
    ButtonText {
        custom_id: "page:refresh"@,
        label: "Refresh"@,
        style: ButtonStyle::Secondary,
        disabled: false,
    }
}

/// How many tabs stand in the last row of tabs.
pub open spec fn last_tabs(n: int) -> int {
    if n == 0 {
        0
    } else if n % (ROW_BUTTONS as int) == 0 {
        ROW_BUTTONS as int
    } else {
        n % (ROW_BUTTONS as int)
    }
}

/// The refresh button in the last row where the tabs leave room, or else in a row
/// of its own.
pub open spec fn with_refresh(all: Seq<RowText>, n_tabs: int) -> Seq<RowText> {
    if all.len() > 0 && 0 < last_tabs(n_tabs) < ROW_BUTTONS && all.last() is Buttons {
        all.drop_last().push(RowText::Buttons(all.last()->Buttons_0.push(refresh_button())))
    } else {
        all.push(RowText::Buttons(seq![refresh_button()]))
    }
}

/// The button of a range. That of the open one is marked and cannot be pressed.
pub open spec fn range_button(label: Seq<char>, index: int, open: int) -> ButtonText {
    ButtonText {
        custom_id: "range:"@ + text::decimal(index),
        label,
        style: if index == open {
            ButtonStyle::Primary
        } else {
            ButtonStyle::Secondary
        },
        disabled: index == open,
    }
}

pub open spec fn range_buttons(ranges: Seq<&'static str>, open: int) -> Seq<ButtonText> {
    Seq::new(ranges.len(), |i: int| range_button(ranges[i]@, i, open))
}

/// The row of the ranges, with the refresh button where it is wanted and the ranges
/// leave room.
pub open spec fn range_row(ranges: Seq<&'static str>, open: int, refresh: bool) -> RowText {
    let buttons = range_buttons(ranges, open);
    RowText::Buttons(
        if refresh && ranges.len() < ROW_BUTTONS {
            buttons.push(refresh_button())
        } else {
            buttons
        },
    )
}

/// The rows of a pager with tabs, and with ranges where there are any.
pub open spec fn pager_row_texts(
    tabs: Seq<&'static str>,
    ranges: Option<Seq<&'static str>>,
    s: TabState,
    refresh: bool,
) -> Seq<RowText> {
    let top = if tabs.len() > 0 {
        tab_rows(tabs, 0, s.page as int)
    } else if s.page_count > 1 {
        seq![RowText::Buttons(walk_buttons("page"@, s.page as int, s.page_count as int))]
    } else {
        Seq::empty()
    };
    let ranged = match ranges {
        Some(r) => top.push(range_row(r, s.range_idx as int, refresh)),
        None => top,
    };
    let walks = if tabs.len() > 0 && s.sub_count > 1 {
        ranged.push(
            RowText::Buttons(walk_buttons("sub"@, s.sub_page as int, s.sub_count as int)),
        )
    } else {
        ranged
    };
    if !refresh {
        walks
    } else {
        match ranges {
            Some(r) => if r.len() < ROW_BUTTONS {
                walks
            } else {
                walks.push(RowText::Buttons(seq![refresh_button()]))
            },
            None => with_refresh(walks, tabs.len() as int),
        }
    }
}

pub open spec fn opt_labels(o: Option<Vec<&'static str>>) -> Option<Seq<&'static str>> {
    match o {
        Some(v) => Some(v@),
        None => None,
    }
}

/// Where a pager with tabs stands.
#[derive(Debug, Clone, Copy, PartialEq, Eq, Structural)]
pub struct TabState {
    pub page: u64,
    pub page_count: u64,
    pub sub_page: u64,
    pub sub_count: u64,
    pub range_idx: u64,
    pub range_count: u64,
}

fn make_tab_row(tabs: &Vec<&'static str>, from: usize, to: usize, page: u64) -> (r: Row)
    requires
        from <= to <= tabs.len(),
    ensures
        r@ == RowText::Buttons(tab_buttons(tabs@, from as int, to as int, page as int)),
{
    let ghost goal = tab_buttons(tabs@, from as int, to as int, page as int);
    let mut v: Vec<Button> = Vec::new();
    assert(button_texts(v@) =~= goal.take(0));
    for i in from..to
        invariant
            from <= to <= tabs.len(),
            goal == tab_buttons(tabs@, from as int, to as int, page as int),
            button_texts(v@) == goal.take(i - from),
    {
        let open = i as u64 == page;
        let style = if open {
            ButtonStyle::Primary
        } else {
            ButtonStyle::Secondary
        };
        let b = button(text::cat2("page:", &text::number(i as u64)), tabs[i], style, open);
        assert(goal[i - from] =~= b@);
        push_button(&mut v, b);
        assert(button_texts(v@) =~= goal.take(i + 1 - from));
    }
    assert(goal.take(to - from) =~= goal);
    Row::Buttons(v)
}

fn make_tab_rows(tabs: &Vec<&'static str>, page: u64) -> (r: Vec<Row>)
    ensures
        row_texts(r@) == tab_rows(tabs@, 0, page as int),
{
    let mut r = rows();
    let mut from: usize = 0;
    let n: usize = tabs.len();
    assert(row_texts(r@) + tab_rows(tabs@, 0, page as int) =~= tab_rows(tabs@, 0, page as int));
    while from < n
        invariant
            from <= n,
            n == tabs.len(),
            row_texts(r@) + tab_rows(tabs@, from as int, page as int) == tab_rows(
                tabs@,
                0,
                page as int,
            ),
        decreases n - from,
    {
        let to: usize = if n - from > ROW_BUTTONS {
            from + ROW_BUTTONS
        } else {
            n
        };
        let ghost before = row_texts(r@);
        push_row(&mut r, make_tab_row(tabs, from, to, page));
        proof {
            let row = RowText::Buttons(
                tab_buttons(tabs@, from as int, to as int, page as int),
            );
            let rest = tab_rows(tabs@, to as int, page as int);
            assert(tab_rows(tabs@, from as int, page as int) == seq![row] + rest);
            assert(before.push(row) + rest =~= before + (seq![row] + rest));
        }
        from = to;
    }
    assert(row_texts(r@) + tab_rows(tabs@, n as int, page as int) =~= row_texts(r@));
    r
}

fn put_refresh(r: Vec<Row>, n_tabs: usize) -> (out: Vec<Row>)
    ensures
        row_texts(out@) == with_refresh(row_texts(r@), n_tabs as int),
{
    let ghost all = row_texts(r@);
    let refresh = button(text::copy("page:refresh"), "Refresh", ButtonStyle::Secondary, false);
    let mut r = r;
    let last: usize = if n_tabs == 0 {
        0
    } else if n_tabs % ROW_BUTTONS == 0 {
        ROW_BUTTONS
    } else {
        n_tabs % ROW_BUTTONS
    };
    if r.len() > 0 && 0 < last && last < ROW_BUTTONS {
        let ghost before = r@;
        assert(all.last() == before.last()@);
        if let Some(row) = r.pop() {
            assert(row == before.last());
            assert(row_texts(r@) =~= all.drop_last());
            match row {
                Row::Buttons(v) => {
                    let mut v = v;
                    push_button(&mut v, refresh);
                    push_row(&mut r, Row::Buttons(v));
                    return r;
                },
                Row::Menu(m) => {
                    push_row(&mut r, Row::Menu(m));
                    assert(row_texts(r@) =~= all);
                },
            }
        }
    }
    push_refresh(&mut r);
    r
}

fn push_refresh(r: &mut Vec<Row>)
    ensures
        row_texts(final(r)@) == row_texts(old(r)@).push(RowText::Buttons(seq![refresh_button()])),
{
    let mut own: Vec<Button> = Vec::new();
    push_button(
        &mut own,
        button(text::copy("page:refresh"), "Refresh", ButtonStyle::Secondary, false),
    );
    assert(button_texts(own@) =~= seq![refresh_button()]);
    push_row(r, Row::Buttons(own));
}

fn make_range_row(ranges: &Vec<&'static str>, open: u64, refresh: bool) -> (r: Row)
    ensures
        r@ == range_row(ranges@, open as int, refresh),
{
    let ghost goal = range_buttons(ranges@, open as int);
    let mut v: Vec<Button> = Vec::new();
    assert(button_texts(v@) =~= goal.take(0));
    for i in 0..ranges.len()
        invariant
            goal == range_buttons(ranges@, open as int),
            button_texts(v@) == goal.take(i as int),
    {
        let marked = i as u64 == open;
        let style = if marked {
            ButtonStyle::Primary
        } else {
            ButtonStyle::Secondary
        };
        let b = button(text::cat2("range:", &text::number(i as u64)), ranges[i], style, marked);
        assert(goal[i as int] =~= b@);
        push_button(&mut v, b);
        assert(button_texts(v@) =~= goal.take(i + 1));
    }
    assert(goal.take(ranges.len() as int) =~= goal);
    if refresh && ranges.len() < ROW_BUTTONS {
        push_button(
            &mut v,
            button(text::copy("page:refresh"), "Refresh", ButtonStyle::Secondary, false),
        );
    }
    Row::Buttons(v)
}

pub fn pager_rows(
    tabs: &Vec<&'static str>,
    ranges: &Option<Vec<&'static str>>,
    s: &TabState,
    refresh: bool,
) -> (r: Vec<Row>)
    requires
        s.page < u64::MAX,
        s.sub_page < u64::MAX,
    ensures
        row_texts(r@) == pager_row_texts(tabs@, opt_labels(*ranges), *s, refresh),
{
    let mut r = if tabs.len() > 0 {
        make_tab_rows(tabs, s.page)
    } else {
        let mut v = rows();
        if s.page_count > 1 {
            push_row(&mut v, nav_row("page", s.page, s.page_count));
        }
        v
    };
    if let Some(labels) = ranges {
        push_row(&mut r, make_range_row(labels, s.range_idx, refresh));
    }
    if tabs.len() > 0 && s.sub_count > 1 {
        push_row(&mut r, nav_row("sub", s.sub_page, s.sub_count));
    }
    if !refresh {
        return r;
    }
    match ranges {
        Some(labels) => {
            if labels.len() >= ROW_BUTTONS {
                push_refresh(&mut r);
            }
            r
        },
        None => put_refresh(r, tabs.len()),
    }
}

/// The part of an identifier between its first two colons.
pub open spec fn action_of(custom_id: Seq<char>) -> Seq<char> {
    let parts = text::pieces(custom_id, text::is_char(':'));
    if parts.len() > 1 {
        parts[1]
    } else {
        Seq::empty()
    }
}

/// Where a button leads among so many pages.
pub open spec fn next_of(custom_id: Seq<char>, index: int, count: int) -> int {
    let action = action_of(custom_id);
    if action == "first"@ {
        0
    } else if action == "prev"@ {
        if index > 0 {
            index - 1
        } else {
            0
        }
    } else if action == "next"@ {
        if index + 1 < last_page(count) {
            index + 1
        } else {
            last_page(count)
        }
    } else if action == "last"@ {
        last_page(count)
    } else if action == "refresh"@ {
        index
    } else {
        match text::parsed_u64(action) {
            Some(t) if t < count => t,
            _ => index,
        }
    }
}

fn action(custom_id: &str) -> (r: String)
    ensures
        r@ == action_of(custom_id@),
{
    let parts = text::split(custom_id, ':');
    if parts.len() > 1 {
        parts[1].clone()
    } else {
        String::new()
    }
}

pub fn next_index(custom_id: &str, index: u64, count: u64) -> (r: u64)
    ensures
        r == next_of(custom_id@, index as int, count as int),
{
    let action = action(custom_id);
    let last: u64 = if count > 0 {
        count - 1
    } else {
        0
    };
    if text::same(&action, "first") {
        0
    } else if text::same(&action, "prev") {
        if index > 0 {
            index - 1
        } else {
            0
        }
    } else if text::same(&action, "next") {
        if index < last {
            index + 1
        } else {
            last
        }
    } else if text::same(&action, "last") {
        last
    } else if text::same(&action, "refresh") {
        index
    } else {
        match text::parse_u64(&action) {
            Some(t) => if t < count {
                t
            } else {
                index
            },
            None => index,
        }
    }
}

/// What a press of a pager with tabs asks for.
#[derive(Debug, Clone, Copy, PartialEq, Eq, Structural)]
pub struct TabPress {
    /// Forget what was loaded.
    pub refresh: bool,
    /// Ask how many screens the page has.
    pub reload: bool,
    /// The range that was chosen, where another one was.
    pub range: Option<u64>,
}

/// The range that a button stands for; the open one where it is none of them.
pub open spec fn range_of(custom_id: Seq<char>, open: int, count: int) -> int {
    match text::parsed_u64(action_of(custom_id)) {
        Some(i) if i < count => i,
        _ => open,
    }
}

/// Where a pager with tabs stands after a press, before it is known how many
/// screens the page has.
pub open spec fn tab_pressed(s: TabState, id: Seq<char>) -> (TabState, TabPress) {
    let still = TabPress { refresh: false, reload: false, range: None };
    if text::begins(id, "sub:"@) {
        (
            TabState {
                sub_page: next_of(id, s.sub_page as int, s.sub_count as int) as u64,
                ..s
            },
            still,
        )
    } else if text::begins(id, "range:"@) {
        let idx = range_of(id, s.range_idx as int, s.range_count as int);
        if idx != s.range_idx {
            (
                TabState { range_idx: idx as u64, sub_page: 0, ..s },
                TabPress { refresh: true, reload: true, range: Some(idx as u64) },
            )
        } else {
            (s, still)
        }
    } else {
        let target = next_of(id, s.page as int, s.page_count as int);
        if target != s.page || id == "page:refresh"@ {
            (
                TabState { page: target as u64, sub_page: 0, ..s },
                TabPress { refresh: id == "page:refresh"@, reload: true, range: None },
            )
        } else {
            (s, still)
        }
    }
}

impl TabState {
    /// Before the first page is shown.
    pub fn start(start_page: u64, page_count: u64) -> (s: Self)
        ensures
            s.page_count == page_count,
            s.page == (if start_page < last_page(page_count as int) {
                start_page as int
            } else {
                last_page(page_count as int)
            }),
            s.sub_page == 0,
            s.sub_count == 1,
            s.range_idx == 0,
            s.range_count == 0,
    {
        let last: u64 = if page_count > 0 {
            page_count - 1
        } else {
            0
        };
        TabState {
            page: if start_page < last {
                start_page
            } else {
                last
            },
            page_count,
            sub_page: 0,
            sub_count: 1,
            range_idx: 0,
            range_count: 0,
        }
    }

    /// With so many ranges to choose from, one of which is open.
    pub fn with_ranges(self, start_range: u64, range_count: u64) -> (s: Self)
        ensures
            s == (TabState {
                range_idx: if start_range < last_page(range_count as int) {
                    start_range
                } else {
                    last_page(range_count as int) as u64
                },
                range_count,
                ..self
            }),
    {
        let last: u64 = if range_count > 0 {
            range_count - 1
        } else {
            0
        };
        TabState {
            range_idx: if start_range < last {
                start_range
            } else {
                last
            },
            range_count,
            ..self
        }
    }

    /// It is known how many screens the page has.
    pub fn loaded(&mut self, sub_count: u64)
        ensures
            *final(self) == (TabState {
                sub_count: if sub_count > 1 {
                    sub_count
                } else {
                    1
                },
                ..*old(self)
            }),
    {
        self.sub_count = if sub_count > 1 {
            sub_count
        } else {
            1
        };
    }

    /// Takes in a press.
    pub fn press(&mut self, id: &str) -> (p: TabPress)
        ensures
            (*final(self), p) == tab_pressed(*old(self), id@),
    {
        if text::starts_with(id, "sub:") {
            self.sub_page = next_index(id, self.sub_page, self.sub_count);
            return TabPress { refresh: false, reload: false, range: None };
        }
        if text::starts_with(id, "range:") {
            if let Some(i) = text::parse_u64(&action(id)) {
                if i < self.range_count && i != self.range_idx {
                    self.range_idx = i;
                    self.sub_page = 0;
                    return TabPress { refresh: true, reload: true, range: Some(i) };
                }
            }
            return TabPress { refresh: false, reload: false, range: None };
        }
        let target: u64 = next_index(id, self.page, self.page_count);
        let refresh = text::same(id, "page:refresh");
        if target != self.page || refresh {
            self.page = target;
            self.sub_page = 0;
            TabPress { refresh, reload: true, range: None }
        } else {
            TabPress { refresh: false, reload: false, range: None }
        }
    }

    /// Whether there is anything to press.
    pub fn interactive(&self, has_tabs: bool, refresh: bool, has_ranges: bool) -> (b: bool)
        ensures
            b == (has_tabs || self.page_count > 1 || refresh || self.sub_count > 1 || has_ranges),
    {
        has_tabs || self.page_count > 1 || refresh || self.sub_count > 1 || has_ranges
    }
}

/// A pager with tabs never leaves its tabs, its screens or its ranges, whatever is
/// pressed.
pub proof fn lemma_tabs_stay_inside(s: TabState, id: Seq<char>)
    requires
        s.page < s.page_count,
        s.sub_page < s.sub_count,
    ensures
        tab_pressed(s, id).0.page < s.page_count,
        tab_pressed(s, id).0.sub_page < s.sub_count,
        s.range_idx < s.range_count ==> tab_pressed(s, id).0.range_idx < s.range_count,
{
    text::lemma_parsed_nonnegative(action_of(id));
}

// ---------------------------------------------------------------------------
// Choices
// ---------------------------------------------------------------------------

/// The most choices that can be offered.
pub const MAX_CHOICE_BUTTONS: usize = 25;

/// The most characters of a button.
pub const BUTTON_CHARS: usize = 80;

pub open spec fn choice_button(choice: (String, String)) -> ButtonText {
    ButtonText {
        custom_id: "pick:"@ + choice.0@,
        label: formatting::clamped(choice.1@, BUTTON_CHARS as int),
        style: ButtonStyle::Primary,
        disabled: false,
    }
}

/// The buttons of the choices from one position to another.
pub open spec fn choice_buttons(choices: Seq<(String, String)>, from: int, to: int) -> Seq<ButtonText> {
    Seq::new((to - from) as nat, |i: int| choice_button(choices[from + i]))
}

/// The rows of the choices from a position on.
pub open spec fn choice_rows_from(choices: Seq<(String, String)>, from: int) -> Seq<RowText>
    decreases choices.len() - from,
{
    if from >= choices.len() || from >= MAX_CHOICE_BUTTONS {
        Seq::empty()
    } else {
        let to = if from + ROW_BUTTONS < choices.len() {
            from + ROW_BUTTONS
        } else {
            choices.len() as int
        };
        seq![RowText::Buttons(choice_buttons(choices, from, to))] + choice_rows_from(choices, to)
    }
}

fn make_choice_row(choices: &Vec<(String, String)>, from: usize, to: usize) -> (r: Row)
    requires
        from <= to <= choices.len(),
    ensures
        r@ == RowText::Buttons(choice_buttons(choices@, from as int, to as int)),
{
    let ghost goal = choice_buttons(choices@, from as int, to as int);
    let mut v: Vec<Button> = Vec::new();
    assert(button_texts(v@) =~= goal.take(0));
    for i in from..to
        invariant
            from <= to <= choices.len(),
            goal == choice_buttons(choices@, from as int, to as int),
            button_texts(v@) == goal.take(i - from),
    {
        let b = button(
            text::cat2("pick:", &choices[i].0),
            &formatting::clamp(&choices[i].1, BUTTON_CHARS),
            ButtonStyle::Primary,
            false,
        );
        assert(goal[i - from] =~= b@);
        push_button(&mut v, b);
        assert(button_texts(v@) =~= goal.take(i + 1 - from));
    }
    assert(goal.take(to - from) =~= goal);
    Row::Buttons(v)
}

/// A button for each choice, each with the identifier it stands for and its label.
pub fn choice_rows(choices: &Vec<(String, String)>) -> (r: Vec<Row>)
    ensures
        row_texts(r@) == choice_rows_from(choices@, 0),
{
    let mut r = rows();
    let mut from: usize = 0;
    let n: usize = choices.len();
    assert(row_texts(r@) + choice_rows_from(choices@, 0) =~= choice_rows_from(choices@, 0));
    while from < n && from < MAX_CHOICE_BUTTONS
        invariant
            from <= n,
            n == choices.len(),
            row_texts(r@) + choice_rows_from(choices@, from as int) == choice_rows_from(
                choices@,
                0,
            ),
        decreases n - from,
    {
        let to: usize = if n - from > ROW_BUTTONS {
            from + ROW_BUTTONS
        } else {
            n
        };
        let ghost before = row_texts(r@);
        push_row(&mut r, make_choice_row(choices, from, to));
        proof {
            let row = RowText::Buttons(choice_buttons(choices@, from as int, to as int));
            let rest = choice_rows_from(choices@, to as int);
            assert(choice_rows_from(choices@, from as int) == seq![row] + rest);
            assert(before.push(row) + rest =~= before + (seq![row] + rest));
        }
        from = to;
    }
    assert(row_texts(r@) + choice_rows_from(choices@, from as int) =~= row_texts(r@));
    r
}

/// The choice that a button stands for.
pub fn picked_choice(custom_id: &str) -> (r: String)
    ensures
        r@ == text::text_or_empty(text::after_prefix(custom_id@, "pick:"@)),
{
    match text::strip_prefix(custom_id, "pick:") {
        Some(id) => id,
        None => String::new(),
    }
}

/// Pressing the button of a choice picks that choice.
pub proof fn lemma_buttons_pick_their_choice(choice: (String, String))
    ensures
        text::after_prefix(choice_button(choice).custom_id, "pick:"@) == Some(choice.0@),
{
    let id = "pick:"@ + choice.0@;
    assert(id.take("pick:"@.len() as int) =~= "pick:"@);
    assert(id.skip("pick:"@.len() as int) =~= choice.0@);
}

// ---------------------------------------------------------------------------
// What the buttons do
// ---------------------------------------------------------------------------

/// The buttons of a pager: the first two lead back and are off on the first page, the
/// next two lead on and are off on the last.
pub proof fn lemma_pager_buttons(page: int, page_count: int)
    ensures
        ({
            let b = nav_buttons(page, page_count);
            &&& b.len() == 5
            &&& b[0].custom_id == "page:first"@ && b[0].label == "<<"@ && b[0].disabled == (page == 0)
            &&& b[1].custom_id == "page:prev"@ && b[1].label == "<"@ && b[1].disabled == (page == 0)
            &&& b[2].custom_id == "page:next"@ && b[2].label == ">"@
            &&& b[3].custom_id == "page:last"@ && b[3].label == ">>"@
            &&& page_count > 1 && page + 1 < page_count ==> !b[2].disabled && !b[3].disabled
            &&& page + 1 >= page_count ==> b[2].disabled && b[3].disabled
            &&& b[4].custom_id == "page:close"@ && !b[4].disabled
        }),
{
}

/// Back and on turn one page, the outer buttons go to the ends, and nothing leads out.
pub proof fn lemma_pages_are_turned(page: int, page_count: int)
    requires
        0 <= page < page_count,
    ensures
        turned(page, page_count, "page:first"@) == 0,
        page > 0 ==> turned(page, page_count, "page:prev"@) == page - 1,
        turned(0, page_count, "page:prev"@) == 0,
        page + 1 < page_count ==> turned(page, page_count, "page:next"@) == page + 1,
        page + 1 == page_count ==> turned(page, page_count, "page:next"@) == page,
        turned(page, page_count, "page:last"@) == page_count - 1,
        0 < page ==> turned(turned(page, page_count, "page:prev"@), page_count, "page:next"@) == page,
{
    reveal_strlit("page:first");
    reveal_strlit("page:prev");
    reveal_strlit("page:next");
    reveal_strlit("page:last");
    assert("page:first"@[5] == 'f' && "page:prev"@[5] == 'p' && "page:next"@[5] == 'n'
        && "page:last"@[5] == 'l');
}

/// Closing closes; a choice in the menu opens it on its first page, and the choice that
/// is open stays.
pub proof fn lemma_pager_presses(s: NavState, press: NavPress)
    ensures
        press matches NavPress::Button(id) ==> (nav_pressed(s, press).2 <==> id@ == "page:close"@),
        press matches NavPress::Button(id) ==> nav_pressed(s, press).1 == s.select_idx,
        press matches NavPress::Menu(Some(v)) ==> (text::parsed_u64(v@) matches Some(i) ==> (i
            < s.select_count && i != s.select_idx ==> nav_pressed(s, press) == (0int, i, false))),
        press matches NavPress::Menu(Some(v)) ==> (text::parsed_u64(v@) matches Some(i) ==> (i
            == s.select_idx ==> nav_pressed(s, press) == (s.page as int, i, false))),
        press is Other ==> nav_pressed(s, press) == (s.page as int, s.select_idx as int, false),
{
}

/// A tab that is open is marked and off; pressing another opens it.
pub proof fn lemma_tabs(label: Seq<char>, index: int, page: int)
    ensures
        tab_button(label, index, page).label == label,
        tab_button(label, index, page).custom_id == "page:"@ + text::decimal(index),
        tab_button(label, index, page).disabled == (index == page),
        tab_button(label, index, page).style == (if index == page {
            ButtonStyle::Primary
        } else {
            ButtonStyle::Secondary
        }),
        range_button(label, index, page).custom_id == "range:"@ + text::decimal(index),
        range_button(label, index, page).label == label,
        range_button(label, index, page).disabled == (index == page),
{
}

/// The buttons that walk show where they are, and are off at the ends.
pub proof fn lemma_walk_buttons(prefix: Seq<char>, index: int, count: int)
    ensures
        ({
            let b = walk_buttons(prefix, index, count);
            &&& b.len() == 5
            &&& b[0].custom_id == prefix + ":first"@ && b[0].disabled == (index == 0)
            &&& b[1].custom_id == prefix + ":prev"@ && b[1].disabled == (index == 0)
            &&& b[2].label == text::decimal(index + 1) + " / "@ + text::decimal(count)
            &&& b[3].custom_id == prefix + ":next"@ && b[3].disabled == (index + 1 >= count)
            &&& b[4].custom_id == prefix + ":last"@ && b[4].disabled == (index + 1 >= count)
        }),
{
}

/// A button walks as its name says.
pub proof fn lemma_walks(id: Seq<char>, index: int, count: int)
    requires
        0 <= index < count,
    ensures
        action_of(id) == "first"@ ==> next_of(id, index, count) == 0,
        action_of(id) == "prev"@ && index > 0 ==> next_of(id, index, count) == index - 1,
        action_of(id) == "next"@ && index + 1 < count ==> next_of(id, index, count) == index + 1,
        action_of(id) == "next"@ && index + 1 == count ==> next_of(id, index, count) == index,
        action_of(id) == "last"@ ==> next_of(id, index, count) == count - 1,
        action_of(id) == "refresh"@ ==> next_of(id, index, count) == index,
{
    reveal_strlit("first");
    reveal_strlit("prev");
    reveal_strlit("next");
    reveal_strlit("last");
    reveal_strlit("refresh");
    assert("first"@[0] == 'f' && "prev"@[0] == 'p' && "next"@[0] == 'n' && "last"@[0] == 'l'
        && "refresh"@[0] == 'r');
}

/// A button with a number opens that page, where there is one.
pub proof fn lemma_numbered_buttons(id: Seq<char>, index: int, count: int, n: int)
    requires
        text::parsed_u64(action_of(id)) == Some(n),
        action_of(id) != "first"@,
        action_of(id) != "prev"@,
        action_of(id) != "next"@,
        action_of(id) != "last"@,
        action_of(id) != "refresh"@,
    ensures
        n < count ==> next_of(id, index, count) == n,
        n >= count ==> next_of(id, index, count) == index,
{
}

/// Another tab or another range starts at the top of its list and is read anew; a step in
/// the list is neither.
pub proof fn lemma_tab_presses(s: TabState, id: Seq<char>)
    ensures
        text::begins(id, "sub:"@) ==> {
            &&& !tab_pressed(s, id).1.reload && !tab_pressed(s, id).1.refresh
            &&& tab_pressed(s, id).0.page == s.page && tab_pressed(s, id).0.range_idx == s.range_idx
        },
        !text::begins(id, "sub:"@) && !text::begins(id, "range:"@) && tab_pressed(s, id).0.page != s.page
            ==> tab_pressed(s, id).1.reload && tab_pressed(s, id).0.sub_page == 0
            && tab_pressed(s, id).1.range is None,
        !text::begins(id, "sub:"@) && tab_pressed(s, id).0.range_idx != s.range_idx ==> tab_pressed(s, id)
            .1.range == Some(tab_pressed(s, id).0.range_idx) && tab_pressed(s, id).1.reload
            && tab_pressed(s, id).0.sub_page == 0 && tab_pressed(s, id).0.page == s.page,
{
}

/// Only the one who asked may press.
pub proof fn lemma_others_are_told(verb: Seq<char>, author: Seq<char>, command: Seq<char>)
    ensures
        text::begins(not_yours(verb, author, command), "Only "@ + author + " can "@ + verb),
        text::has_text(not_yours(verb, author, command), "`/"@ + command + "`"@),
{
    reveal_strlit("`/");
    reveal_strlit("`");
    reveal_strlit(" this one. Run `/");
    reveal_strlit(" this one. Run ");
    reveal_strlit("` to get your own.");
    reveal_strlit(" to get your own.");
    let whole = not_yours(verb, author, command);
    let a = "Only "@ + author + " can "@ + verb;
    assert(whole.take(a.len() as int) =~= a);
    let front = a + " this one. Run "@;
    let part = "`/"@ + command + "`"@;
    assert(whole =~= front + part + " to get your own."@);
    text::lemma_has_inside(front, part, " to get your own."@);
}

/// What is offered stands at the place of what it opens: the windows at those of their
/// ranges and the boards at those of what they rank by.
pub proof fn lemma_offers_open_what_they_say()
    ensures
        timeframes().len() == 5,
        timeframes()[crate::shared::range_index(crate::shared::RangeChoice::D7)] == "7 days"@,
        timeframes()[crate::shared::range_index(crate::shared::RangeChoice::D30)] == "30 days"@,
        timeframes()[crate::shared::range_index(crate::shared::RangeChoice::D60)] == "60 days"@,
        timeframes()[crate::shared::range_index(crate::shared::RangeChoice::D90)] == "90 days"@,
        timeframes()[crate::shared::range_index(crate::shared::RangeChoice::All)] == "All time"@,
        board_names().len() == 6,
        board_names()[crate::shared::board_index(crate::shared::BoardChoice::Kills)] == "PvP kills"@,
        board_names()[crate::shared::board_index(crate::shared::BoardChoice::Kd)] == "K/D"@,
        board_names()[crate::shared::board_index(crate::shared::BoardChoice::Deaths)] == "Deaths"@,
        board_names()[crate::shared::board_index(crate::shared::BoardChoice::Messages)] == "Messages"@,
        board_names()[crate::shared::board_index(crate::shared::BoardChoice::Joins)] == "Joins"@,
        board_names()[crate::shared::board_index(crate::shared::BoardChoice::Playtime)] == "Playtime"@,
{
}

/// A menu offers each of its choices under its number, and marks the one that is open.
pub proof fn lemma_menus_number_their_choices(options: Seq<&'static str>, selected: int, i: int)
    requires
        0 <= i < options.len(),
    ensures
        select_options(options, selected).len() == options.len(),
        select_options(options, selected)[i].label == options[i]@,
        select_options(options, selected)[i].value == text::decimal(i),
        select_options(options, selected)[i].selected == (i == selected),
{
}

/// The tabs stand in rows of five, in order, each under its number.
pub proof fn lemma_tabs_in_rows(tabs: Seq<&'static str>, from: int, page: int, k: int, j: int)
    requires
        0 <= from <= tabs.len(),
        0 <= k,
        0 <= j < 5,
        from + k * 5 + j < tabs.len(),
    ensures
        k < tab_rows(tabs, from, page).len(),
        tab_rows(tabs, from, page)[k] matches RowText::Buttons(b) && j < b.len() <= 5 && b[j]
            == tab_button(tabs[from + k * 5 + j]@, from + k * 5 + j, page),
    decreases k,
{
    let to = if from + 5 < tabs.len() {
        from + 5
    } else {
        tabs.len() as int
    };
    let all = tab_rows(tabs, from, page);
    assert(all == seq![RowText::Buttons(tab_buttons(tabs, from, to, page))] + tab_rows(tabs, to, page));
    if k > 0 {
        lemma_tabs_in_rows(tabs, to, page, k - 1, j);
        assert(all[k] == tab_rows(tabs, to, page)[k - 1]);
    }
}

} // verus!
