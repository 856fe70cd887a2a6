//! Setting up the live feed from Discord.
use vstd::prelude::*;
use vstd::string::*;

use crate::config;
use crate::config::BridgeStyle;
use crate::embeds;
use crate::embeds::{Embed, EmbedText};
use crate::formatting;
use crate::formatting::Category;
use crate::models;
use crate::models::{EventRoute, RouteKind};
use crate::text;
use crate::topic::TopicResult;
use crate::ui;
use crate::ui::{Button, ButtonStyle, ButtonText, Menu, MenuText, OptionText, Row, RowText, SelectOption};

verus! {

// ---------------------------------------------------------------------------
// Routes
// ---------------------------------------------------------------------------

/// The first route of a kind.
pub open spec fn route_of(routes: Seq<models::RouteText>, kind: Seq<char>) -> Option<models::RouteText>
    decreases routes.len(),
{
    if routes.len() == 0 {
        None
    } else {
        match route_of(routes.drop_last(), kind) {
            Some(r) => Some(r),
            None => if routes.last().kind == kind {
                Some(routes.last())
            } else {
                None
            },
        }
    }
}

pub open spec fn opt_route(o: Option<&EventRoute>) -> Option<models::RouteText> {
    match o {
        Some(r) => Some(r@),
        None => None,
    }
}

pub fn find_route<'a>(routes: &'a Vec<EventRoute>, kind: &str) -> (r: Option<&'a EventRoute>)
    ensures
        opt_route(r) == route_of(models::route_texts(routes@), kind@),
{
    let ghost all = models::route_texts(routes@);
    let mut found: Option<&'a EventRoute> = None;
    for i in 0..routes.len()
        invariant
            all == models::route_texts(routes@),
            opt_route(found) == route_of(all.take(i as int), kind@),
    {
        assert(all.take(i + 1).drop_last() =~= all.take(i as int));
        if found.is_none() && text::same(&routes[i].kind, kind) {
            found = Some(&routes[i]);
        }
    }
    assert(all.take(all.len() as int) =~= all);
    found
}

/// Whether some route of a kind is on.
pub open spec fn some_on(routes: Seq<models::RouteText>, kind: Seq<char>) -> bool
    decreases routes.len(),
{
    routes.len() > 0 && (some_on(routes.drop_last(), kind) || (routes.last().kind == kind
        && routes.last().enabled))
}

fn any_on(routes: &Vec<EventRoute>, kind: &str) -> (b: bool)
    ensures
        b == some_on(models::route_texts(routes@), kind@),
{
    let ghost all = models::route_texts(routes@);
    let mut b = false;
    for i in 0..routes.len()
        invariant
            all == models::route_texts(routes@),
            b == some_on(all.take(i as int), kind@),
    {
        assert(all.take(i + 1).drop_last() =~= all.take(i as int));
        if text::same(&routes[i].kind, kind) && routes[i].enabled {
            b = true;
        }
    }
    assert(all.take(all.len() as int) =~= all);
    b
}

// ---------------------------------------------------------------------------
// The panel
// ---------------------------------------------------------------------------

/// Where lines of a kind go, in a line.
pub open spec fn route_line(
    routes: Seq<models::RouteText>,
    fallback: Seq<char>,
    kind: Seq<char>,
) -> Seq<char> {
    let route = route_of(routes, kind);
    let on = route matches Some(r) && r.enabled;
    let channel = match route {
        Some(r) => match r.channel_id {
            Some(c) => c,
            None => fallback,
        },
        None => fallback,
    };
    (if on {
        "✓"@
    } else {
        "·"@
    }) + " **"@ + models::route_label(kind) + "** → "@ + (if on {
        "<#"@ + channel + ">"@
    } else {
        "hidden"@
    })
}

pub open spec fn route_lines(routes: Seq<models::RouteText>, fallback: Seq<char>) -> Seq<Seq<char>> {
    Seq::new(
        models::ROUTE_KIND_COUNT as nat,
        |i: int| route_line(routes, fallback, models::route_names()[i]),
    )
}

fn make_route_line(routes: &Vec<EventRoute>, fallback: &str, kind: &str) -> (r: String)
    ensures
        r@ == route_line(models::route_texts(routes@), fallback@, kind@),
{
    let route = find_route(routes, kind);
    let on = match route {
        Some(r) => r.enabled,
        None => false,
    };
    let channel: &str = match route {
        Some(r) => match &r.channel_id {
            Some(c) => c.as_str(),
            None => fallback,
        },
        None => fallback,
    };
    let mark: &str = if on {
        "✓"
    } else {
        "·"
    };
    let place = if on {
        text::cat3("<#", channel, ">")
    } else {
        text::copy("hidden")
    };
    text::cat5(mark, " **", models::route_kind_label(kind), "** → ", &place)
}

/// The name of a style.
pub open spec fn style_name(style: BridgeStyle) -> Seq<char> {
    match style {
        BridgeStyle::Rich => "rich"@,
        BridgeStyle::Compact => "compact"@,
    }
}

/// What the panel says.
pub open spec fn panel_text(
    routes: Seq<models::RouteText>,
    fallback: Seq<char>,
    style: BridgeStyle,
    rainbow: bool,
) -> Seq<char> {
    "`Style:` **"@ + style_name(style) + "**\n`Rainbow:` "@ + (if rainbow {
        "✅ **Yes**"@
    } else {
        "❌ **No**"@
    }) + "\n\n**Routing**\n"@ + text::join_text(route_lines(routes, fallback), "\n"@)
        + "\n\nUse **Edit routing** below to change which events post and where each one goes."@
}

pub fn customize_embed(
    label: &str,
    routes: &Vec<EventRoute>,
    fallback: &str,
    style: BridgeStyle,
    rainbow: bool,
    now_us: i64,
) -> (e: Embed)
    ensures
        e@ == (EmbedText {
            title: Some(label@ + " event feed"@),
            description: Some(
                panel_text(models::route_texts(routes@), fallback@, style, rainbow),
            ),
            ..embeds::skeleton_text(Category::Admin, now_us)
        }),
{
    let ghost goal = route_lines(models::route_texts(routes@), fallback@);
    let mut all: Vec<String> = Vec::new();
    assert(text::texts(all@) =~= goal.take(0));
    for i in 0..models::ROUTE_KIND_COUNT
        invariant
            goal == route_lines(models::route_texts(routes@), fallback@),
            text::texts(all@) == goal.take(i as int),
    {
        let kind = RouteKind::at(i).as_str();
        let line = make_route_line(routes, fallback, kind);
        proof {
            assert(models::route_names()[i as int] == kind@);
            assert(goal[i as int] == line@);
            text::lemma_texts_push(all@, line);
            assert(goal.take(i + 1) =~= goal.take(i as int).push(line@));
        }
        all.push(line);
    }
    assert(goal.take(goal.len() as int) =~= goal);
    let mut body = text::cat6(
        "`Style:` **",
        style.as_str(),
        "**\n`Rainbow:` ",
        formatting::yes_no(rainbow),
        "\n\n**Routing**\n",
        &text::join(&all, "\n"),
    );
    body.append(
        "\n\nUse **Edit routing** below to change which events post and where each one goes.",
    );
    embeds::skeleton(Category::Admin, now_us).titled(text::cat2(label, " event feed")).described(
        body,
    )
}

/// The menu of styles.
pub open spec fn style_menu(server_key: Seq<char>, style: BridgeStyle) -> MenuText {
    MenuText {
        custom_id: "cb:style:"@ + server_key,
        placeholder: "Feed style"@,
        min_values: 1,
        max_values: 1,
        options: Some(
            seq![
                OptionText {
                    label: "Rich"@,
                    value: "rich"@,
                    description: Some("One embed per line, with player heads"@),
                    selected: style == BridgeStyle::Rich,
                },
                OptionText {
                    label: "Compact"@,
                    value: "compact"@,
                    description: Some("Batched lines, quieter on a busy server"@),
                    selected: style == BridgeStyle::Compact,
                },
            ],
        ),
    }
}

/// The buttons of the panel when it opens.
pub open spec fn home_buttons(server_key: Seq<char>, rainbow: bool) -> Seq<ButtonText> {
    seq![
        ButtonText {
            custom_id: "cb:rainbow:"@ + server_key,
            label: if rainbow {
                "Rainbow: On"@
            } else {
                "Rainbow: Off"@
            },
            style: if rainbow {
                ButtonStyle::Success
            } else {
                ButtonStyle::Secondary
            },
            disabled: false,
        },
        ButtonText {
            custom_id: "cb:routing:"@ + server_key,
            label: "Edit routing"@,
            style: ButtonStyle::Primary,
            disabled: false,
        },
    ]
}

pub open spec fn home_row_texts(server_key: Seq<char>, style: BridgeStyle, rainbow: bool) -> Seq<RowText> {
    seq![
        RowText::Menu(style_menu(server_key, style)),
        RowText::Buttons(home_buttons(server_key, rainbow)),
    ]
}

fn option(label: String, value: &str, description: &str, selected: bool) -> (o: SelectOption)
    ensures
        o@ == (OptionText {
            label: label@,
            value: value@,
            description: Some(description@),
            selected,
        }),
{
    SelectOption {
        label,
        value: text::copy(value),
        description: Some(text::copy(description)),
        selected,
    }
}

/// The panel when it opens: the style, the rainbow, and a way to the routes.
pub fn home_rows(server_key: &str, style: BridgeStyle, rainbow: bool) -> (r: Vec<Row>)
    ensures
        ui::row_texts(r@) == home_row_texts(server_key@, style, rainbow),
{
    let mut options: Vec<SelectOption> = Vec::new();
    ui::push_option(
        &mut options,
        option(
            text::copy("Rich"),
            "rich",
            "One embed per line, with player heads",
            style == BridgeStyle::Rich,
        ),
    );
    ui::push_option(
        &mut options,
        option(
            text::copy("Compact"),
            "compact",
            "Batched lines, quieter on a busy server",
            style == BridgeStyle::Compact,
        ),
    );
    let menu = Menu {
        custom_id: text::cat2("cb:style:", server_key),
        placeholder: text::copy("Feed style"),
        min_values: 1,
        max_values: 1,
        options: Some(options),
    };
    assert(ui::option_texts(options@) =~= style_menu(server_key@, style).options->0);
    assert(menu@ =~= style_menu(server_key@, style));
    let mut buttons: Vec<Button> = Vec::new();
    let label: &str = if rainbow {
        "Rainbow: On"
    } else {
        "Rainbow: Off"
    };
    let look = if rainbow {
        ButtonStyle::Success
    } else {
        ButtonStyle::Secondary
    };
    ui::push_button(
        &mut buttons,
        ui::button(text::cat2("cb:rainbow:", server_key), label, look, false),
    );
    ui::push_button(
        &mut buttons,
        ui::button(
            text::cat2("cb:routing:", server_key),
            "Edit routing",
            ButtonStyle::Primary,
            false,
        ),
    );
    assert(ui::button_texts(buttons@) =~= home_buttons(server_key@, rainbow));
    let mut r = ui::rows();
    ui::push_row(&mut r, Row::Menu(menu));
    ui::push_row(&mut r, Row::Buttons(buttons));
    r
}

/// The choice of whether lines of a kind are posted.
pub open spec fn toggle_option(routes: Seq<models::RouteText>, kind: Seq<char>) -> OptionText {
    OptionText {
        label: models::route_label(kind),
        value: kind,
        description: Some(
            if some_on(routes, kind) {
                "Currently shown"@
            } else {
                "Currently hidden"@
            },
        ),
        selected: some_on(routes, kind),
    }
}

/// The choice of the kind whose channel is set.
pub open spec fn pick_option(routes: Seq<models::RouteText>, kind: Seq<char>) -> OptionText {
    OptionText {
        label: "Channel for "@ + models::route_label(kind),
        value: kind,
        description: Some(
            if route_of(routes, kind) matches Some(r) && r.channel_id is Some {
                "Custom channel set"@
            } else {
                "Uses main feed channel"@
            },
        ),
        selected: false,
    }
}

pub open spec fn kind_options(routes: Seq<models::RouteText>, toggles: bool) -> Seq<OptionText> {
    Seq::new(
        models::ROUTE_KIND_COUNT as nat,
        |i: int|
            if toggles {
                toggle_option(routes, models::route_names()[i])
            } else {
                pick_option(routes, models::route_names()[i])
            },
    )
}

pub open spec fn toggle_menu(server_key: Seq<char>, routes: Seq<models::RouteText>) -> MenuText {
    MenuText {
        custom_id: "cb:toggle:"@ + server_key,
        placeholder: "Events to show (multi-select)"@,
        min_values: 0,
        max_values: models::ROUTE_KIND_COUNT as u8,
        options: Some(kind_options(routes, true)),
    }
}

pub open spec fn pick_menu(server_key: Seq<char>, routes: Seq<models::RouteText>) -> MenuText {
    MenuText {
        custom_id: "cb:pick:"@ + server_key,
        placeholder: "Pick an event to set its channel…"@,
        min_values: 1,
        max_values: 1,
        options: Some(kind_options(routes, false)),
    }
}

pub open spec fn channel_menu(server_key: Seq<char>, kind: Seq<char>) -> MenuText {
    MenuText {
        custom_id: "cb:channel:"@ + server_key + ":"@ + kind,
        placeholder: "Channel for "@ + models::route_label(kind),
        min_values: 0,
        max_values: 1,
        options: None,
    }
}

pub open spec fn back_button(server_key: Seq<char>) -> ButtonText {
    ButtonText {
        custom_id: "cb:back:"@ + server_key,
        label: "← Back"@,
        style: ButtonStyle::Secondary,
        disabled: false,
    }
}

/// The panel with the routes: which kinds are posted, and where.
pub open spec fn routing_row_texts(
    server_key: Seq<char>,
    routes: Seq<models::RouteText>,
    pick_kind: Option<Seq<char>>,
) -> Seq<RowText> {
    let menus = seq![
        RowText::Menu(toggle_menu(server_key, routes)),
        RowText::Menu(pick_menu(server_key, routes)),
    ];
    let picked = match pick_kind {
        Some(kind) => menus.push(RowText::Menu(channel_menu(server_key, kind))),
        None => menus,
    };
    picked.push(RowText::Buttons(seq![back_button(server_key)]))
}

fn make_kind_options(routes: &Vec<EventRoute>, toggles: bool) -> (r: Vec<SelectOption>)
    ensures
        ui::option_texts(r@) == kind_options(models::route_texts(routes@), toggles),
{
    let ghost all = models::route_texts(routes@);
    let ghost goal = kind_options(all, toggles);
    let mut r: Vec<SelectOption> = Vec::new();
    assert(ui::option_texts(r@) =~= goal.take(0));
    for i in 0..models::ROUTE_KIND_COUNT
        invariant
            all == models::route_texts(routes@),
            goal == kind_options(all, toggles),
            ui::option_texts(r@) == goal.take(i as int),
    {
        let kind = RouteKind::at(i).as_str();
        let label = models::route_kind_label(kind);
        let o = if toggles {
            let on = any_on(routes, kind);
            let said: &str = if on {
                "Currently shown"
            } else {
                "Currently hidden"
            };
            option(text::copy(label), kind, said, on)
        } else {
            let custom = match find_route(routes, kind) {
                Some(r) => r.channel_id.is_some(),
                None => false,
            };
            let said: &str = if custom {
                "Custom channel set"
            } else {
                "Uses main feed channel"
            };
            option(text::cat2("Channel for ", label), kind, said, false)
        };
        proof {
            assert(models::route_names()[i as int] == kind@);
            assert(goal[i as int] =~= o@);
        }
        ui::push_option(&mut r, o);
        assert(ui::option_texts(r@) =~= goal.take(i + 1));
    }
    assert(goal.take(goal.len() as int) =~= goal);
    r
}

pub fn routing_rows(server_key: &str, routes: &Vec<EventRoute>, pick_kind: &Option<String>) -> (r: Vec<
    Row,
>)
    ensures
        ui::row_texts(r@) == routing_row_texts(
            server_key@,
            models::route_texts(routes@),
            text::opt_text(*pick_kind),
        ),
{
    let ghost all = models::route_texts(routes@);
    let toggle = Menu {
        custom_id: text::cat2("cb:toggle:", server_key),
        placeholder: text::copy("Events to show (multi-select)"),
        min_values: 0,
        max_values: models::ROUTE_KIND_COUNT as u8,
        options: Some(make_kind_options(routes, true)),
    };
    assert(toggle@ =~= toggle_menu(server_key@, all));
    let pick = Menu {
        custom_id: text::cat2("cb:pick:", server_key),
        placeholder: text::copy("Pick an event to set its channel…"),
        min_values: 1,
        max_values: 1,
        options: Some(make_kind_options(routes, false)),
    };
    assert(pick@ =~= pick_menu(server_key@, all));
    let mut r = ui::rows();
    ui::push_row(&mut r, Row::Menu(toggle));
    ui::push_row(&mut r, Row::Menu(pick));
    if let Some(kind) = pick_kind {
        let channel = Menu {
            custom_id: text::cat4("cb:channel:", server_key, ":", kind),
            placeholder: text::cat2("Channel for ", models::route_kind_label(kind)),
            min_values: 0,
            max_values: 1,
            options: None,
        };
        assert(channel@ =~= channel_menu(server_key@, kind@));
        ui::push_row(&mut r, Row::Menu(channel));
    }
    let mut back: Vec<Button> = Vec::new();
    ui::push_button(
        &mut back,
        ui::button(
            text::cat2("cb:back:", server_key),
            "← Back",
            ButtonStyle::Secondary,
            false,
        ),
    );
    assert(ui::button_texts(back@) =~= seq![back_button(server_key@)]);
    ui::push_row(&mut r, Row::Buttons(back));
    r
}

/// The panel as it stands.
pub struct Panel {
    pub routing_view: bool,
    pub style: BridgeStyle,
    pub rainbow: bool,
    /// The kind whose channel is being set.
    pub pick_kind: Option<String>,
}

/// The contents of a [`Panel`].
#[verifier::ext_equal]
pub struct PanelText {
    pub routing_view: bool,
    pub style: BridgeStyle,
    pub rainbow: bool,
    pub pick_kind: Option<Seq<char>>,
}

impl View for Panel {
    type V = PanelText;

    open spec fn view(&self) -> PanelText {
        PanelText {
            routing_view: self.routing_view,
            style: self.style,
            rainbow: self.rainbow,
            pick_kind: text::opt_text(self.pick_kind),
        }
    }
}

/// What was pressed on the panel.
#[allow(inconsistent_fields)]
pub enum PanelPress {
    Menu { id: String, values: Vec<String> },
    Channels { id: String, values: Vec<u64> },
    Button { id: String },
    Other,
}

/// A setting to store.
pub enum PanelAction {
    Style(BridgeStyle),
    Rainbow(bool),
    Enable { kind: String, enabled: bool },
    Channel { kind: String, channel_id: Option<String> },
}

/// The contents of a [`PanelAction`].
#[verifier::ext_equal]
pub enum PanelActionText {
    Style(BridgeStyle),
    Rainbow(bool),
    Enable { kind: Seq<char>, enabled: bool },
    Channel { kind: Seq<char>, channel_id: Option<Seq<char>> },
}

impl View for PanelAction {
    type V = PanelActionText;

    open spec fn view(&self) -> PanelActionText {
        match *self {
            PanelAction::Style(s) => PanelActionText::Style(s),
            PanelAction::Rainbow(b) => PanelActionText::Rainbow(b),
            PanelAction::Enable { kind, enabled } => PanelActionText::Enable {
                kind: kind@,
                enabled,
            },
            PanelAction::Channel { kind, channel_id } => PanelActionText::Channel {
                kind: kind@,
                channel_id: text::opt_text(channel_id),
            },
        }
    }
}

pub open spec fn panel_actions(v: Seq<PanelAction>) -> Seq<PanelActionText> {
    Seq::new(v.len(), |i: int| v[i]@)
}

pub open spec fn first_value(values: Seq<String>) -> Option<Seq<char>> {
    if values.len() > 0 {
        Some(values[0]@)
    } else {
        None
    }
}

/// Turns each kind on that was selected, and the others off.
pub open spec fn toggled(values: Seq<Seq<char>>) -> Seq<PanelActionText> {
    Seq::new(
        models::ROUTE_KIND_COUNT as nat,
        |i: int|
            PanelActionText::Enable {
                kind: models::route_names()[i],
                enabled: values.contains(models::route_names()[i]),
            },
    )
}

/// The kind at the end of the identifier of a channel menu.
pub open spec fn channel_kind(id: Seq<char>) -> Seq<char> {
    let parts = text::pieces(id, text::is_char(':'));
    if parts.len() > 3 {
        parts[3]
    } else {
        Seq::empty()
    }
}

/// The panel after a press, and what to store.
pub open spec fn panel_pressed(p: PanelText, press: PanelPress) -> (PanelText, Seq<PanelActionText>) {
    match press {
        PanelPress::Menu { id, values } => if text::begins(id@, "cb:style:"@) {
            let style = config::style_of(
                match first_value(values@) {
                    Some(v) => v,
                    None => "rich"@,
                },
            );
            (PanelText { style, ..p }, seq![PanelActionText::Style(style)])
        } else if text::begins(id@, "cb:toggle:"@) {
            (PanelText { pick_kind: None, ..p }, toggled(text::texts(values@)))
        } else if text::begins(id@, "cb:pick:"@) {
            (
                PanelText {
                    pick_kind: match first_value(values@) {
                        Some(v) => models::opt_route_name(models::canonical(v)),
                        None => None,
                    },
                    ..p
                },
                Seq::empty(),
            )
        } else {
            (p, Seq::empty())
        },
        PanelPress::Channels { id, values } => if text::begins(id@, "cb:channel:"@) {
            let kind = channel_kind(id@);
            (
                PanelText { pick_kind: None, ..p },
                if models::canonical(kind) is Some {
                    seq![
                        PanelActionText::Channel {
                            kind,
                            channel_id: if values@.len() > 0 {
                                Some(text::decimal(values@[0] as int))
                            } else {
                                None
                            },
                        },
                        PanelActionText::Enable { kind, enabled: true },
                    ]
                } else {
                    Seq::empty()
                },
            )
        } else {
            (p, Seq::empty())
        },
        PanelPress::Button { id } => if text::begins(id@, "cb:rainbow:"@) {
            (
                PanelText { rainbow: !p.rainbow, ..p },
                seq![PanelActionText::Rainbow(!p.rainbow)],
            )
        } else if text::begins(id@, "cb:routing:"@) {
            (PanelText { routing_view: true, ..p }, Seq::empty())
        } else if text::begins(id@, "cb:back:"@) {
            (PanelText { routing_view: false, pick_kind: None, ..p }, Seq::empty())
        } else {
            (p, Seq::empty())
        },
        PanelPress::Other => (p, Seq::empty()),
    }
}

fn note(v: &mut Vec<PanelAction>, a: PanelAction)
    ensures
        panel_actions(final(v)@) == panel_actions(old(v)@).push(a@),
{
    let ghost before = v@;
    v.push(a);
    assert(panel_actions(v@) =~= panel_actions(before).push(a@));
}

fn toggle_all(values: &Vec<String>) -> (r: Vec<PanelAction>)
    ensures
        panel_actions(r@) == toggled(text::texts(values@)),
{
    let ghost goal = toggled(text::texts(values@));
    let mut r: Vec<PanelAction> = Vec::new();
    assert(panel_actions(r@) =~= goal.take(0));
    for i in 0..models::ROUTE_KIND_COUNT
        invariant
            goal == toggled(text::texts(values@)),
            panel_actions(r@) == goal.take(i as int),
    {
        let kind = RouteKind::at(i).as_str();
        let a = PanelAction::Enable {
            kind: text::copy(kind),
            enabled: text::listed(values, kind),
        };
        proof {
            assert(models::route_names()[i as int] == kind@);
            assert(goal[i as int] =~= a@);
        }
        note(&mut r, a);
        assert(panel_actions(r@) =~= goal.take(i + 1));
    }
    assert(goal.take(goal.len() as int) =~= goal);
    r
}

impl Panel {
    /// The panel when it opens.
    pub fn open(style: BridgeStyle, rainbow: bool) -> (p: Self)
        ensures
            p@ == (PanelText { routing_view: false, style, rainbow, pick_kind: None }),
    {
        Panel { routing_view: false, style, rainbow, pick_kind: None }
    }

    /// The controls of the panel.
    pub fn rows(&self, server_key: &str, routes: &Vec<EventRoute>) -> (r: Vec<Row>)
        ensures
            ui::row_texts(r@) == (if self.routing_view {
                routing_row_texts(server_key@, models::route_texts(routes@), self@.pick_kind)
            } else {
                home_row_texts(server_key@, self.style, self.rainbow)
            }),
    {
        if self.routing_view {
            routing_rows(server_key, routes, &self.pick_kind)
        } else {
            home_rows(server_key, self.style, self.rainbow)
        }
    }

    /// Takes in a press, and says what to store.
    pub fn press(&mut self, press: &PanelPress) -> (actions: Vec<PanelAction>)
        ensures
            (final(self)@, panel_actions(actions@)) == panel_pressed(old(self)@, *press),
    {
        let mut actions: Vec<PanelAction> = Vec::new();
        let ghost before = self@;
        assert(panel_actions(actions@) =~= Seq::<PanelActionText>::empty());
        match press {
            PanelPress::Menu { id, values } => {
                if text::starts_with(id, "cb:style:") {
                    let style = if values.len() > 0 {
                        BridgeStyle::parse(&values[0])
                    } else {
                        BridgeStyle::parse("rich")
                    };
                    self.style = style;
                    note(&mut actions, PanelAction::Style(style));
                } else if text::starts_with(id, "cb:toggle:") {
                    self.pick_kind = None;
                    actions = toggle_all(values);
                } else if text::starts_with(id, "cb:pick:") {
                    self.pick_kind = if values.len() > 0 {
                        match models::canonical_route_kind(&values[0]) {
                            Some(k) => Some(text::copy(k)),
                            None => None,
                        }
                    } else {
                        None
                    };
                }
            },
            PanelPress::Channels { id, values } => {
                if text::starts_with(id, "cb:channel:") {
                    let parts = text::split(id, ':');
                    let kind = if parts.len() > 3 {
                        parts[3].clone()
                    } else {
                        String::new()
                    };
                    self.pick_kind = None;
                    if models::canonical_route_kind(&kind).is_some() {
                        let channel_id = if values.len() > 0 {
                            Some(text::number(values[0]))
                        } else {
                            None
                        };
                        note(
                            &mut actions,
                            PanelAction::Channel { kind: kind.clone(), channel_id },
                        );
                        note(&mut actions, PanelAction::Enable { kind, enabled: true });
                    }
                }
            },
            PanelPress::Button { id } => {
                if text::starts_with(id, "cb:rainbow:") {
                    self.rainbow = !self.rainbow;
                    note(&mut actions, PanelAction::Rainbow(self.rainbow));
                } else if text::starts_with(id, "cb:routing:") {
                    self.routing_view = true;
                } else if text::starts_with(id, "cb:back:") {
                    self.routing_view = false;
                    self.pick_kind = None;
                }
            },
            PanelPress::Other => {},
        }
        proof {
            let after = panel_pressed(before, *press);
            assert(self@ =~= after.0);
            assert(panel_actions(actions@) =~= after.1);
        }
        actions
    }
}

/// Pressing the rainbow button twice leaves the panel as it was.
pub proof fn lemma_rainbow_twice(p: PanelText, press: PanelPress)
    requires
        press matches PanelPress::Button { id } && text::begins(id@, "cb:rainbow:"@),
    ensures
        panel_pressed(panel_pressed(p, press).0, press).0 == p,
{
}

/// Only the kinds there are are ever turned on or off by the menu of kinds, each
/// once.
pub proof fn lemma_toggle_covers_every_kind(values: Seq<Seq<char>>, i: int)
    requires
        0 <= i < models::ROUTE_KIND_COUNT,
    ensures
        toggled(values).len() == models::ROUTE_KIND_COUNT,
        toggled(values)[i] == (PanelActionText::Enable {
            kind: models::route_names()[i],
            enabled: values.contains(models::route_names()[i]),
        }),
{
}

// ---------------------------------------------------------------------------
// Replies
// ---------------------------------------------------------------------------

/// What is said where there is no main channel yet.
pub open spec fn set_first_text(label: Seq<char>) -> Seq<char> {
    "Run "@ + formatting::code_text("/chatbridge set"@) + " for "@ + formatting::bold_text(label)
        + " so events have a default channel. Then come back here to split joins, deaths, etc."@
}

pub fn set_first(label: &str, now_us: i64) -> (e: Embed)
    ensures
        e@ == embeds::notice_text(
            embeds::WARNING_COLOUR,
            "Set a main feed first"@,
            set_first_text(label@),
            now_us,
        ),
{
    let body = text::cat5(
        "Run ",
        &formatting::code("/chatbridge set"),
        " for ",
        &formatting::bold(label),
        " so events have a default channel. Then come back here to split joins, deaths, etc.",
    );
    embeds::warning("Set a main feed first", &body, now_us)
}

pub fn feed_set(label: &str, channel_id: u64) -> (r: String)
    ensures
        r@ == "Feed for **"@ + label@ + "** set to <#"@ + text::decimal(channel_id as int)
            + ">. Pause with `/chatbridge pause`."@,
{
    text::cat5(
        "Feed for **",
        label,
        "** set to <#",
        &text::number(channel_id),
        ">. Pause with `/chatbridge pause`.",
    )
}

pub fn feed_switched(label: &str, enabled: bool) -> (r: String)
    ensures
        r@ == "Feed for **"@ + label@ + "** is now "@ + (if enabled {
            "resumed"@
        } else {
            "paused"@
        }) + "."@,
{
    let state: &str = if enabled {
        "resumed"
    } else {
        "paused"
    };
    text::cat5("Feed for **", label, "** is now ", state, ".")
}

pub fn topic_reply(result: TopicResult) -> (s: &'static str)
    ensures
        s@ == told_of_topic(result),
{
    match result {
        TopicResult::Updated => "Topic updated.",
        TopicResult::Unchanged => "Topic already up to date.",
        TopicResult::NoChannel => "No feed channel set.",
        TopicResult::Unsupported => "That channel type has no topic.",
        TopicResult::Forbidden => "Missing Manage Channel permission.",
        TopicResult::Failed => "Topic update failed.",
    }
}

pub fn test_reply(posted: bool) -> (s: &'static str)
    ensures
        s@ == (if posted {
            "Posted a test line."@
        } else {
            "Could not post — is the feed channel set?"@
        }),
{
    if posted {
        "Posted a test line."
    } else {
        "Could not post — is the feed channel set?"
    }
}

pub fn feed_reset(label: &str, channel_id: &Option<String>) -> (r: String)
    ensures
        r@ == "Reset feed for **"@ + label@
            + "**: default event kinds, no per-kind channels, posting on. Channel: "@ + (
        match text::opt_text(*channel_id) {
            Some(id) => "<#"@ + id + ">"@,
            None => "not set — run `/chatbridge set`"@,
        }) + "."@,
{
    let channel = match channel_id {
        Some(id) => text::cat3("<#", id, ">"),
        None => text::copy("not set — run `/chatbridge set`"),
    };
    text::cat5(
        "Reset feed for **",
        label,
        "**: default event kinds, no per-kind channels, posting on. Channel: ",
        &channel,
        ".",
    )
}

pub fn feed_removed(label: &str) -> (r: String)
    ensures
        r@ == "Removed the feed for **"@ + label@
            + "**. Nothing will post until `/chatbridge set`."@,
{
    text::cat3(
        "Removed the feed for **",
        label,
        "**. Nothing will post until `/chatbridge set`.",
    )
}

/// The state of a feed.
pub struct BridgeStatusRow {
    pub label: String,
    pub channel_id: Option<String>,
    pub enabled: bool,
    pub error: Option<String>,
    pub behind: Option<i64>,
}

/// What is said about a feed.
pub open spec fn status_text(row: BridgeStatusRow) -> Seq<char> {
    match text::opt_text(row.error) {
        Some(err) => "Database unreachable — "@ + formatting::code_text(
            formatting::clamped(err, 200),
        ),
        None => match text::opt_text(row.channel_id) {
            Some(ch) => formatting::bold_text(
                if row.enabled {
                    "Active"@
                } else {
                    "Paused"@
                },
            ) + " in <#"@ + ch + ">\n"@ + (if row.behind matches Some(n) && n > 0 {
                formatting::grouped(row.behind->0 as int) + " lines behind"@
            } else {
                "up to date"@
            }),
            None => "No channel set — run "@ + formatting::code_text("/chatbridge set"@),
        },
    }
}

fn make_status(row: &BridgeStatusRow) -> (r: String)
    ensures
        r@ == status_text(*row),
{
    if let Some(err) = &row.error {
        return text::cat2(
            "Database unreachable — ",
            &formatting::code(&formatting::clamp(err, 200)),
        );
    }
    match &row.channel_id {
        Some(ch) => {
            let state: &str = if row.enabled {
                "Active"
            } else {
                "Paused"
            };
            let lag: i64 = match row.behind {
                Some(n) => n,
                None => 0,
            };
            let tail = if lag > 0 {
                text::cat2(&formatting::fmt(lag), " lines behind")
            } else {
                text::copy("up to date")
            };
            text::cat5(&formatting::bold(state), " in <#", ch, ">\n", &tail)
        },
        None => text::cat2("No channel set — run ", &formatting::code("/chatbridge set")),
    }
}

pub open spec fn status_fields(rows: Seq<BridgeStatusRow>) -> Seq<(Seq<char>, Seq<char>, bool)> {
    Seq::new(rows.len(), |i: int| (rows[i].label@, status_text(rows[i]), false))
}

pub fn build_bridge_status_embed(rows: &Vec<BridgeStatusRow>, now_us: i64) -> (e: Embed)
    ensures
        e@ == (EmbedText {
            title: Some("Chat feed"@),
            fields: status_fields(rows@),
            footer: Some(("Paused feeds keep logging; they just stop posting"@, None)),
            ..embeds::skeleton_text(Category::Admin, now_us)
        }),
{
    let ghost goal = status_fields(rows@);
    let mut e = embeds::skeleton(Category::Admin, now_us).titled(text::copy("Chat feed"));
    let ghost base = e@;
    assert(base.fields =~= goal.take(0));
    for i in 0..rows.len()
        invariant
            goal == status_fields(rows@),
            e@ == (EmbedText { fields: goal.take(i as int), ..base }),
    {
        let value = make_status(&rows[i]);
        assert(goal[i as int] == (rows[i as int].label@, value@, false));
        e = e.field(&rows[i].label, value, false);
        assert(e@.fields =~= goal.take(i + 1));
    }
    assert(goal.take(goal.len() as int) =~= goal);
    e.with_footer(text::copy("Paused feeds keep logging; they just stop posting"))
}

// ---------------------------------------------------------------------------
// What the panel says and does
// ---------------------------------------------------------------------------

/// The first route of a kind counts.
pub proof fn lemma_first_route_counts(
    routes: Seq<models::RouteText>,
    route: models::RouteText,
    kind: Seq<char>,
)
    ensures
        route_of(Seq::empty(), kind) is None,
        route_of(routes, kind) is Some ==> route_of(routes.push(route), kind) == route_of(routes, kind),
        route_of(routes, kind) is None && route.kind == kind ==> route_of(routes.push(route), kind)
            == Some(route),
        route.kind != kind ==> route_of(routes.push(route), kind) == route_of(routes, kind),
        route_of(routes, kind) matches Some(r) ==> r.kind == kind,
    decreases routes.len(),
{
    assert(routes.push(route).drop_last() =~= routes);
    if routes.len() > 0 {
        lemma_first_route_counts(routes.drop_last(), routes.last(), kind);
        assert(routes.drop_last().push(routes.last()) =~= routes);
    }
}

/// A kind that is on is shown with a tick and its channel, and one that is off as hidden.
pub proof fn lemma_routes_are_shown(
    routes: Seq<models::RouteText>,
    fallback: Seq<char>,
    kind: Seq<char>,
)
    ensures
        ({
            let line = route_line(routes, fallback, kind);
            let named = " **"@ + models::route_label(kind) + "** → "@;
            match route_of(routes, kind) {
                Some(r) => if !r.enabled {
                    line == "·"@ + named + "hidden"@
                } else {
                    match r.channel_id {
                        Some(c) => line == "✓"@ + named + ("<#"@ + c + ">"@),
                        None => line == "✓"@ + named + ("<#"@ + fallback + ">"@),
                    }
                },
                None => line == "·"@ + named + "hidden"@,
            }
        }),
{
    let line = route_line(routes, fallback, kind);
    let named = " **"@ + models::route_label(kind) + "** → "@;
    assert("·"@ + " **"@ + models::route_label(kind) + "** → "@ + "hidden"@ =~= "·"@ + named
        + "hidden"@);
    match route_of(routes, kind) {
        Some(r) => {
            let c = match r.channel_id {
                Some(c) => c,
                None => fallback,
            };
            assert("✓"@ + " **"@ + models::route_label(kind) + "** → "@ + ("<#"@ + c + ">"@) =~= "✓"@
                + named + ("<#"@ + c + ">"@));
        },
        None => {},
    }
}

/// A kind is shown as on in the menu where a route of it is on.
pub proof fn lemma_menu_shows_what_is_on(
    routes: Seq<models::RouteText>,
    route: models::RouteText,
    kind: Seq<char>,
)
    ensures
        !some_on(Seq::empty(), kind),
        some_on(routes.push(route), kind) <==> some_on(routes, kind) || route.kind == kind
            && route.enabled,
        toggle_option(routes, kind).selected == some_on(routes, kind),
        toggle_option(routes, kind).value == kind,
        toggle_option(routes, kind).description == Some(
            if some_on(routes, kind) {
                "Currently shown"@
            } else {
                "Currently hidden"@
            },
        ),
{
    assert(routes.push(route).drop_last() =~= routes);
}

/// What is picked in the menus is what is done: the style, the kinds that are shown, the
/// kind whose channel is asked for, and its channel, which shows the kind too.
pub proof fn lemma_presses_do_what_they_say(p: PanelText, press: PanelPress)
    ensures
        press matches PanelPress::Menu { id, values } ==> {
            &&& text::begins(id@, "cb:style:"@) && values@.len() > 0 && values@[0]@ == "compact"@ ==> {
                &&& panel_pressed(p, press).0.style == BridgeStyle::Compact
                &&& panel_pressed(p, press).1 == seq![PanelActionText::Style(BridgeStyle::Compact)]
            }
            &&& text::begins(id@, "cb:style:"@) && values@.len() > 0 && values@[0]@ == "rich"@ ==> {
                &&& panel_pressed(p, press).0.style == BridgeStyle::Rich
                &&& panel_pressed(p, press).1 == seq![PanelActionText::Style(BridgeStyle::Rich)]
            }
        },
        press matches PanelPress::Button { id } ==> {
            &&& text::begins(id@, "cb:rainbow:"@) ==> panel_pressed(p, press).0.rainbow == !p.rainbow
                && panel_pressed(p, press).1 == seq![PanelActionText::Rainbow(!p.rainbow)]
        },
{
    reveal_strlit("rich");
    reveal_strlit("compact");
    assert(text::lowered("rich"@).len() == 4);
    assert(text::lowered("compact"@).len() == 7);
}

/// A channel that is picked for a kind is the channel of that kind, and the kind is shown
/// from there on; none at all takes the channel away.
pub proof fn lemma_picked_channels(p: PanelText, id: String, channel: u64)
    requires
        text::begins(id@, "cb:channel:"@),
        models::canonical(channel_kind(id@)) is Some,
    ensures
        forall|values: Vec<u64>|
            values@ == seq![channel] ==> (#[trigger] panel_pressed(
                p,
                PanelPress::Channels { id, values },
            )).1 == seq![
                PanelActionText::Channel {
                    kind: channel_kind(id@),
                    channel_id: Some(text::decimal(channel as int)),
                },
                PanelActionText::Enable { kind: channel_kind(id@), enabled: true },
            ],
        forall|values: Vec<u64>|
            values@.len() == 0 ==> (#[trigger] panel_pressed(
                p,
                PanelPress::Channels { id, values },
            )).1[0] == (PanelActionText::Channel { kind: channel_kind(id@), channel_id: None }),
{
}

/// The state of a feed: a database that cannot be reached, a feed that is on or paused in
/// its channel, with the lines it is behind, or none at all.
pub proof fn lemma_states_of_feeds(row: BridgeStatusRow)
    ensures
        row.error is Some ==> text::begins(status_text(row), "Database unreachable — "@),
        row.error is None && row.channel_id is None ==> text::begins(
            status_text(row),
            "No channel set — run "@,
        ),
        row.error is None && row.channel_id is Some ==> {
            let s = status_text(row);
            let there = " in <#"@ + row.channel_id->0@ + ">\n"@;
            let behind = if row.behind is Some && row.behind->0 > 0 {
                formatting::grouped(row.behind->0 as int) + " lines behind"@
            } else {
                "up to date"@
            };
            &&& row.enabled ==> s == "**"@ + "Active"@ + "**"@ + there + behind
            &&& !row.enabled ==> s == "**"@ + "Paused"@ + "**"@ + there + behind
        },
{
    let s = status_text(row);
    if row.error is Some {
        let a = "Database unreachable — "@;
        assert(s.take(a.len() as int) =~= a);
    } else if row.channel_id is None {
        let a = "No channel set — run "@;
        assert(s.take(a.len() as int) =~= a);
    } else {
        let ch = row.channel_id->0@;
        let behind = if row.behind is Some && row.behind->0 > 0 {
            formatting::grouped(row.behind->0 as int) + " lines behind"@
        } else {
            "up to date"@
        };
        let word = if row.enabled {
            "Active"@
        } else {
            "Paused"@
        };
        assert(s =~= "**"@ + word + "**"@ + (" in <#"@ + ch + ">\n"@) + behind);
    }
}

/// The menus of the panel carry the server, show what is set, and offer each kind once.
pub proof fn lemma_menus_show_what_is_set(
    server_key: Seq<char>,
    style: BridgeStyle,
    rainbow: bool,
    routes: Seq<models::RouteText>,
    kind: Seq<char>,
    i: int,
)
    requires
        0 <= i < 7,
    ensures
        ({
            let m = style_menu(server_key, style);
            &&& m.custom_id == "cb:style:"@ + server_key
            &&& m.options matches Some(o) && o.len() == 2 && o[0].value == "rich"@ && o[1].value
                == "compact"@ && o[0].selected == (style == BridgeStyle::Rich) && o[1].selected == (style
                == BridgeStyle::Compact)
        }),
        ({
            let b = home_buttons(server_key, rainbow);
            &&& b[0].custom_id == "cb:rainbow:"@ + server_key
            &&& rainbow ==> b[0].label == "Rainbow: On"@
            &&& !rainbow ==> b[0].label == "Rainbow: Off"@
            &&& b[1].custom_id == "cb:routing:"@ + server_key
        }),
        toggle_menu(server_key, routes).custom_id == "cb:toggle:"@ + server_key,
        toggle_menu(server_key, routes).options matches Some(o) && o.len() == 7 && o[i].value
            == models::route_names()[i] && o[i].selected == some_on(routes, models::route_names()[i]),
        pick_menu(server_key, routes).custom_id == "cb:pick:"@ + server_key,
        pick_menu(server_key, routes).options matches Some(o) && o.len() == 7 && o[i].value
            == models::route_names()[i],
        channel_menu(server_key, kind).custom_id == "cb:channel:"@ + server_key + ":"@ + kind,
        back_button(server_key).custom_id == "cb:back:"@ + server_key,
        route_lines(routes, kind).len() == 7,
        route_lines(routes, kind)[i] == route_line(routes, kind, models::route_names()[i]),
{
}

/// The panel says which style is set, and whether in rainbow colours.
pub proof fn lemma_panels_say_what_is_set(
    routes: Seq<models::RouteText>,
    fallback: Seq<char>,
    rainbow: bool,
)
    ensures
        text::begins(
            panel_text(routes, fallback, BridgeStyle::Rich, rainbow),
            "`Style:` **"@ + "rich"@ + "**\n`Rainbow:` "@,
        ),
        text::begins(
            panel_text(routes, fallback, BridgeStyle::Compact, rainbow),
            "`Style:` **"@ + "compact"@ + "**\n`Rainbow:` "@,
        ),
        text::begins(
            panel_text(routes, fallback, BridgeStyle::Rich, true),
            "`Style:` **"@ + "rich"@ + "**\n`Rainbow:` "@ + "✅ **Yes**"@,
        ),
        text::begins(
            panel_text(routes, fallback, BridgeStyle::Rich, false),
            "`Style:` **"@ + "rich"@ + "**\n`Rainbow:` "@ + "❌ **No**"@,
        ),
{
    let a = "`Style:` **"@ + "rich"@ + "**\n`Rainbow:` "@;
    assert(panel_text(routes, fallback, BridgeStyle::Rich, rainbow).take(a.len() as int) =~= a);
    let b = "`Style:` **"@ + "compact"@ + "**\n`Rainbow:` "@;
    assert(panel_text(routes, fallback, BridgeStyle::Compact, rainbow).take(b.len() as int) =~= b);
    let yes = a + "✅ **Yes**"@;
    assert(panel_text(routes, fallback, BridgeStyle::Rich, true).take(yes.len() as int) =~= yes);
    let no = a + "❌ **No**"@;
    assert(panel_text(routes, fallback, BridgeStyle::Rich, false).take(no.len() as int) =~= no);
}

/// What is said of a topic that was to be set.
pub open spec fn told_of_topic(result: TopicResult) -> Seq<char> {
    match result {
        TopicResult::Updated => "Topic updated."@,
        TopicResult::Unchanged => "Topic already up to date."@,
        TopicResult::NoChannel => "No feed channel set."@,
        TopicResult::Unsupported => "That channel type has no topic."@,
        TopicResult::Forbidden => "Missing Manage Channel permission."@,
        TopicResult::Failed => "Topic update failed."@,
    }
}

/// Each end of a topic has its own words.
pub proof fn lemma_topics_are_told()
    ensures
        told_of_topic(TopicResult::Updated) == "Topic updated."@,
        told_of_topic(TopicResult::Unchanged) == "Topic already up to date."@,
        told_of_topic(TopicResult::NoChannel) == "No feed channel set."@,
        told_of_topic(TopicResult::Unsupported) == "That channel type has no topic."@,
        told_of_topic(TopicResult::Forbidden) == "Missing Manage Channel permission."@,
        told_of_topic(TopicResult::Failed) == "Topic update failed."@,
{
}

} // verus!
