//! How the greeter looks: colors, outlines, and how controls show their state.

use vstd::prelude::*;

verus! {

/// The corner radius that controls share.
pub const CONTROL_RADIUS: u32 = 18;

/// The outline of a control that has the focus.
pub const EMPHASIS_WIDTH: u32 = 3;

/// A color with its opacity in hundredths.
#[derive(Clone, Copy, Debug, PartialEq, Eq, Structural)]
pub struct Tint {
    pub red: u8,
    pub green: u8,
    pub blue: u8,
    pub alpha: u8,
}

/// A line around a surface.
#[derive(Clone, Copy, Debug, PartialEq, Eq, Structural)]
pub struct Outline {
    pub color: Tint,
    pub width: u32,
    pub radius: u32,
}

/// A surface with what is written on it.
#[derive(Clone, Copy, Debug, PartialEq, Eq, Structural)]
pub struct SurfaceStyle {
    pub text_color: Option<Tint>,
    pub background: Option<Tint>,
    pub border: Outline,
}

/// A field to type in.
#[derive(Clone, Copy, Debug, PartialEq, Eq, Structural)]
pub struct InputStyle {
    pub background: Tint,
    pub border: Outline,
    pub icon: Tint,
    pub placeholder: Tint,
    pub value: Tint,
    pub selection: Tint,
}

/// A field to choose from.
#[derive(Clone, Copy, Debug, PartialEq, Eq, Structural)]
pub struct SelectorStyle {
    pub text_color: Tint,
    pub placeholder_color: Tint,
    pub handle_color: Tint,
    pub background: Tint,
    pub border: Outline,
}

/// The choices of a field.
#[derive(Clone, Copy, Debug, PartialEq, Eq, Structural)]
pub struct MenuStyle {
    pub background: Tint,
    pub border: Outline,
    pub text_color: Tint,
    pub selected_text_color: Tint,
    pub selected_background: Tint,
}

/// A button.
#[derive(Clone, Copy, Debug, PartialEq, Eq, Structural)]
pub struct ButtonStyle {
    pub background: Tint,
    pub text_color: Tint,
    pub border: Outline,
}

/// A pair of scroll bars.
#[derive(Clone, Copy, Debug, PartialEq, Eq, Structural)]
pub struct ScrollbarStyle {
    pub horizontal: Tint,
    pub vertical: Tint,
    pub track: Tint,
    pub radius: u32,
}

/// What happens to a button.
#[derive(Clone, Copy, Debug, PartialEq, Eq, Structural)]
pub enum ButtonStatus {
    Active,
    Hovered,
    Pressed,
    Disabled,
}

/// What happens to a field to choose from.
#[derive(Clone, Copy, Debug, PartialEq, Eq, Structural)]
pub enum SelectorStatus {
    Active,
    Hovered,
    Opened,
}

/// What happens to scroll bars, each with whether it is the horizontal and the
/// vertical one.
#[derive(Clone, Copy, Debug, PartialEq, Eq, Structural)]
pub enum ScrollStatus {
    Active,
    Hovered(bool, bool),
    Dragged(bool, bool),
}

/// A color that covers what is behind it.
pub open spec fn opaque(red: u8, green: u8, blue: u8) -> Tint {
    Tint { red, green, blue, alpha: 100 }
}

/// White with an opacity.
pub open spec fn white(alpha: u8) -> Tint {
    Tint { red: 255, green: 255, blue: 255, alpha }
}

/// The dark glass that surfaces are made of.
pub open spec fn glass(alpha: u8) -> Tint {
    Tint { red: 7, green: 10, blue: 24, alpha }
}

/// The outline of a control. It is never fainter than a boundary may be, and
/// strong where the control has the focus.
pub open spec fn outlined(alpha: u8, emphasized: bool) -> Outline {
    Outline {
        color: white(
            if emphasized {
                95
            } else if alpha < 46 {
                46
            } else {
                alpha
            },
        ),
        width: if emphasized {
            EMPHASIS_WIDTH
        } else {
            1
        },
        radius: CONTROL_RADIUS,
    }
}

/// No outline.
pub open spec fn bare() -> Outline {
    Outline { color: Tint { red: 0, green: 0, blue: 0, alpha: 0 }, width: 0, radius: 0 }
}

fn solid(red: u8, green: u8, blue: u8) -> (tint: Tint)
    ensures
        tint == opaque(red, green, blue),
{
    Tint { red, green, blue, alpha: 100 }
}

fn pale(alpha: u8) -> (tint: Tint)
    ensures
        tint == white(alpha),
{
    Tint { red: 255, green: 255, blue: 255, alpha }
}

fn material(alpha: u8) -> (tint: Tint)
    ensures
        tint == glass(alpha),
{
    Tint { red: 7, green: 10, blue: 24, alpha }
}

fn outline(alpha: u8, emphasized: bool) -> (border: Outline)
    ensures
        border == outlined(alpha, emphasized),
{
    Outline {
        color: pale(
            if emphasized {
                95
            } else if alpha < 46 {
                46
            } else {
                alpha
            },
        ),
        width: if emphasized {
            EMPHASIS_WIDTH
        } else {
            1
        },
        radius: CONTROL_RADIUS,
    }
}

fn no_outline() -> (border: Outline)
    ensures
        border == bare(),
{
    Outline { color: Tint { red: 0, green: 0, blue: 0, alpha: 0 }, width: 0, radius: 0 }
}

/// The color of what matters.
pub fn primary_text() -> (color: Tint)
    ensures
        color == white(100),
{
    pale(100)
}

/// The color of what matters a little less.
pub fn strong_secondary_text() -> (color: Tint)
    ensures
        color == white(85),
{
    pale(85)
}

/// The color of what matters less.
pub fn secondary_text() -> (color: Tint)
    ensures
        color == white(78),
{
    pale(78)
}

/// The color of what matters least.
pub fn muted_text() -> (color: Tint)
    ensures
        color == white(68),
{
    pale(68)
}

/// The color of a message.
pub fn status_text(error: bool) -> (color: Tint)
    ensures
        color == if error {
            opaque(255, 171, 171)
        } else {
            white(78)
        },
{
    if error {
        solid(255, 171, 171)
    } else {
        secondary_text()
    }
}

/// A dialog.
pub fn dialog() -> (style: SurfaceStyle)
    ensures
        style == (SurfaceStyle {
            text_color: None,
            background: Some(glass(82)),
            border: outlined(28, false),
        }),
{
    SurfaceStyle { text_color: None, background: Some(material(82)), border: outline(28, false) }
}

/// What dims the page behind a dialog.
pub fn modal_scrim() -> (style: SurfaceStyle)
    ensures
        style == (SurfaceStyle {
            text_color: None,
            background: Some(Tint { red: 0, green: 0, blue: 0, alpha: 65 }),
            border: bare(),
        }),
{
    SurfaceStyle {
        text_color: None,
        background: Some(Tint { red: 0, green: 0, blue: 0, alpha: 65 }),
        border: no_outline(),
    }
}

/// How a field to type in looks.
pub open spec fn input_style(focused: bool) -> InputStyle {
    InputStyle {
        background: glass(72),
        border: outlined(42, focused),
        icon: white(100),
        placeholder: white(55),
        value: white(100),
        selection: opaque(65, 105, 225),
    }
}

/// A field to type in.
pub fn input(focused: bool) -> (style: InputStyle)
    ensures
        style == input_style(focused),
{
    InputStyle {
        background: material(72),
        border: outline(42, focused),
        icon: primary_text(),
        placeholder: pale(55),
        value: primary_text(),
        selection: solid(65, 105, 225),
    }
}

/// How a field to choose from looks.
pub open spec fn selector_style(status: SelectorStatus, focused: bool) -> SelectorStyle {
    SelectorStyle {
        text_color: white(100),
        placeholder_color: white(72),
        handle_color: white(80),
        background: glass(
            match status {
                SelectorStatus::Opened => 76,
                SelectorStatus::Hovered => 68,
                SelectorStatus::Active => 58,
            },
        ),
        border: outlined(
            if status == SelectorStatus::Hovered {
                50
            } else {
                28
            },
            status == SelectorStatus::Opened || focused,
        ),
    }
}

/// A field to choose from.
pub fn selector(status: SelectorStatus, focused: bool) -> (style: SelectorStyle)
    ensures
        style == selector_style(status, focused),
{
    let hovered = status == SelectorStatus::Hovered;
    let opened = status == SelectorStatus::Opened;
    SelectorStyle {
        text_color: primary_text(),
        placeholder_color: pale(72),
        handle_color: pale(80),
        background: material(
            if opened {
                76
            } else if hovered {
                68
            } else {
                58
            },
        ),
        border: outline(
            if hovered {
                50
            } else {
                28
            },
            opened || focused,
        ),
    }
}

/// The choices of a field.
pub fn selector_menu() -> (style: MenuStyle)
    ensures
        style == (MenuStyle {
            background: opaque(22, 27, 56),
            border: outlined(28, false),
            text_color: white(100),
            selected_text_color: white(100),
            selected_background: opaque(56, 92, 204),
        }),
{
    MenuStyle {
        background: solid(22, 27, 56),
        border: outline(28, false),
        text_color: primary_text(),
        selected_text_color: primary_text(),
        selected_background: solid(56, 92, 204),
    }
}

/// A control that does nothing.
pub fn inactive_control() -> (style: SurfaceStyle)
    ensures
        style == (SurfaceStyle {
            text_color: Some(white(100)),
            background: Some(glass(58)),
            border: outlined(28, false),
        }),
{
    SurfaceStyle {
        text_color: Some(primary_text()),
        background: Some(material(58)),
        border: outline(28, false),
    }
}

/// What says that this is a preview.
pub fn preview_badge() -> (style: SurfaceStyle)
    ensures
        style == (SurfaceStyle {
            text_color: Some(white(100)),
            background: Some(opaque(22, 27, 56)),
            border: outlined(28, false),
        }),
{
    SurfaceStyle {
        text_color: Some(primary_text()),
        background: Some(solid(22, 27, 56)),
        border: outline(28, false),
    }
}

/// The picture of an account.
pub fn avatar(radius: u32) -> (style: SurfaceStyle)
    ensures
        style == (SurfaceStyle {
            text_color: None,
            background: Some(glass(76)),
            border: Outline { color: white(46), width: 2, radius },
        }),
{
    SurfaceStyle {
        text_color: None,
        background: Some(material(76)),
        border: Outline { color: pale(46), width: 2, radius },
    }
}

/// How an account to choose looks.
pub open spec fn account_style(status: ButtonStatus, focused: bool) -> ButtonStyle {
    ButtonStyle {
        background: glass(
            match status {
                ButtonStatus::Hovered => 72,
                ButtonStatus::Pressed => 82,
                ButtonStatus::Disabled => 34,
                ButtonStatus::Active => 58,
            },
        ),
        text_color: white(100),
        border: outlined(
            match status {
                ButtonStatus::Hovered => 62,
                ButtonStatus::Pressed => 72,
                ButtonStatus::Disabled => 46,
                ButtonStatus::Active => 52,
            },
            focused,
        ),
    }
}

/// An account to choose.
pub fn account_tile(status: ButtonStatus, focused: bool) -> (style: ButtonStyle)
    ensures
        style == account_style(status, focused),
{
    let (background, border): (u8, u8) = match status {
        ButtonStatus::Hovered => (72, 62),
        ButtonStatus::Pressed => (82, 72),
        ButtonStatus::Disabled => (34, 46),
        ButtonStatus::Active => (58, 52),
    };
    ButtonStyle {
        background: material(background),
        text_color: primary_text(),
        border: outline(border, focused),
    }
}

/// How the button that goes on looks.
pub open spec fn primary_style(status: ButtonStatus, focused: bool) -> ButtonStyle {
    ButtonStyle {
        background: match status {
            ButtonStatus::Active => opaque(56, 92, 204),
            ButtonStatus::Hovered => opaque(65, 105, 225),
            ButtonStatus::Pressed => opaque(47, 79, 180),
            ButtonStatus::Disabled => glass(34),
        },
        text_color: white(100),
        border: outlined(34, focused),
    }
}

/// The button that goes on.
pub fn primary_button(status: ButtonStatus, focused: bool) -> (style: ButtonStyle)
    ensures
        style == primary_style(status, focused),
{
    let background = match status {
        ButtonStatus::Active => solid(56, 92, 204),
        ButtonStatus::Hovered => solid(65, 105, 225),
        ButtonStatus::Pressed => solid(47, 79, 180),
        ButtonStatus::Disabled => material(34),
    };
    ButtonStyle { background, text_color: primary_text(), border: outline(34, focused) }
}

/// How a button of a dialog looks.
pub open spec fn dialog_button_style(
    status: ButtonStatus,
    focused: bool,
    destructive: bool,
) -> ButtonStyle {
    if destructive {
        ButtonStyle {
            background: Tint { red: 170, green: 42, blue: 52, alpha: 72 },
            ..primary_style(status, focused)
        }
    } else {
        primary_style(status, focused)
    }
}

/// A button of a dialog, which may be one that destroys something.
pub fn dialog_button(status: ButtonStatus, focused: bool, destructive: bool) -> (style: ButtonStyle)
    ensures
        style == dialog_button_style(status, focused, destructive),
{
    let mut style = primary_button(status, focused);
    if destructive {
        style.background = Tint { red: 170, green: 42, blue: 52, alpha: 72 };
    }
    if focused {
        style.border = outline(34, true);
    }
    style
}

/// How a button that does not go on looks.
pub open spec fn secondary_style(status: ButtonStatus, focused: bool) -> ButtonStyle {
    ButtonStyle {
        background: glass(
            match status {
                ButtonStatus::Hovered => 68,
                ButtonStatus::Pressed => 76,
                ButtonStatus::Disabled => 34,
                ButtonStatus::Active => 58,
            },
        ),
        text_color: white(100),
        border: outlined(28, focused),
    }
}

/// A button that does not go on.
pub fn secondary_button(status: ButtonStatus, focused: bool) -> (style: ButtonStyle)
    ensures
        style == secondary_style(status, focused),
{
    let alpha: u8 = match status {
        ButtonStatus::Hovered => 68,
        ButtonStatus::Pressed => 76,
        ButtonStatus::Disabled => 34,
        ButtonStatus::Active => 58,
    };
    ButtonStyle {
        background: material(alpha),
        text_color: primary_text(),
        border: outline(28, focused),
    }
}

/// The color of one scroll bar, of which `touched` says whether the pointer has it.
pub open spec fn thumb(status: ScrollStatus, touched: bool) -> Tint {
    if !touched {
        opaque(143, 151, 180)
    } else {
        match status {
            ScrollStatus::Active => opaque(143, 151, 180),
            ScrollStatus::Hovered(_, _) => opaque(190, 196, 220),
            ScrollStatus::Dragged(_, _) => opaque(225, 229, 241),
        }
    }
}

/// Which scroll bars the pointer has, the horizontal and the vertical one.
pub open spec fn touched(status: ScrollStatus) -> (bool, bool) {
    match status {
        ScrollStatus::Active => (false, false),
        ScrollStatus::Hovered(horizontal, vertical) => (horizontal, vertical),
        ScrollStatus::Dragged(horizontal, vertical) => (horizontal, vertical),
    }
}

/// The scroll bars.
pub fn scrollbar(status: ScrollStatus) -> (style: ScrollbarStyle)
    ensures
        style == (ScrollbarStyle {
            horizontal: thumb(status, touched(status).0),
            vertical: thumb(status, touched(status).1),
            track: opaque(7, 10, 24),
            radius: 2,
        }),
{
    let active = solid(143, 151, 180);
    let hovered = solid(190, 196, 220);
    let dragged = solid(225, 229, 241);
    let (horizontal, vertical) = match status {
        ScrollStatus::Active => (active, active),
        ScrollStatus::Hovered(over_horizontal, over_vertical) => (
            if over_horizontal {
                hovered
            } else {
                active
            },
            if over_vertical {
                hovered
            } else {
                active
            },
        ),
        ScrollStatus::Dragged(drags_horizontal, drags_vertical) => (
            if drags_horizontal {
                dragged
            } else {
                active
            },
            if drags_vertical {
                dragged
            } else {
                active
            },
        ),
    };
    ScrollbarStyle { horizontal, vertical, track: solid(7, 10, 24), radius: 2 }
}

/// Whether a control shows that it has the focus.
pub open spec fn emphasized(border: Outline) -> bool {
    border.width == EMPHASIS_WIDTH && border.color == white(95)
}

/// Every control shows the focus in one way, and a control without it does not
/// look as if it had it. All share their corners.
pub proof fn law_focus_is_always_visible(
    status: ButtonStatus,
    choice: SelectorStatus,
    focused: bool,
    destructive: bool,
)
    ensures
        emphasized(input_style(focused).border) == focused,
        emphasized(account_style(status, focused).border) == focused,
        emphasized(primary_style(status, focused).border) == focused,
        emphasized(secondary_style(status, focused).border) == focused,
        emphasized(dialog_button_style(status, focused, destructive).border) == focused,
        emphasized(selector_style(choice, focused).border) == (focused || choice
            == SelectorStatus::Opened),
        input_style(focused).border.radius == CONTROL_RADIUS,
        account_style(status, focused).border.radius == CONTROL_RADIUS,
        primary_style(status, focused).border.radius == CONTROL_RADIUS,
        secondary_style(status, focused).border.radius == CONTROL_RADIUS,
        dialog_button_style(status, focused, destructive).border.radius == CONTROL_RADIUS,
        selector_style(choice, focused).border.radius == CONTROL_RADIUS,
{
}

/// No outline is fainter than a boundary may be.
pub proof fn law_boundaries_are_never_faint(alpha: u8, emphasis: bool)
    ensures
        outlined(alpha, emphasis).color.alpha >= 46,
        outlined(alpha, emphasis).width >= 1,
{
}

/// What is written on a control is white and opaque, whatever happens to the control.
pub proof fn law_controls_can_be_read(
    status: ButtonStatus,
    choice: SelectorStatus,
    focused: bool,
    destructive: bool,
)
    ensures
        ({
            let plain = Tint { red: 255, green: 255, blue: 255, alpha: 100 };
            &&& account_style(status, focused).text_color == plain
            &&& primary_style(status, focused).text_color == plain
            &&& secondary_style(status, focused).text_color == plain
            &&& dialog_button_style(status, focused, destructive).text_color == plain
            &&& selector_style(choice, focused).text_color == plain
            &&& input_style(focused).value == plain
            &&& input_style(focused).icon == plain
            &&& input_style(focused).placeholder == (Tint { alpha: 55, ..plain })
            &&& selector_style(choice, focused).placeholder_color == (Tint { alpha: 72, ..plain })
            &&& selector_style(choice, focused).handle_color == (Tint { alpha: 80, ..plain })
        }),
{
}

/// A control is the denser the more happens to it: least where it is disabled, more where
/// it is only there, and more again under the pointer, where it is pressed or open.
pub proof fn law_controls_answer_the_pointer(
    status: ButtonStatus,
    choice: SelectorStatus,
    focused: bool,
)
    ensures
        ({
            let dark = Tint { red: 7, green: 10, blue: 24, alpha: 0 };
            &&& account_style(status, focused).background == (Tint {
                alpha: if status == ButtonStatus::Disabled {
                    34
                } else if status == ButtonStatus::Active {
                    58
                } else if status == ButtonStatus::Hovered {
                    72
                } else {
                    82
                },
                ..dark
            })
            &&& secondary_style(status, focused).background == (Tint {
                alpha: if status == ButtonStatus::Disabled {
                    34
                } else if status == ButtonStatus::Active {
                    58
                } else if status == ButtonStatus::Hovered {
                    68
                } else {
                    76
                },
                ..dark
            })
            &&& selector_style(choice, focused).background == (Tint {
                alpha: if choice == SelectorStatus::Active {
                    58
                } else if choice == SelectorStatus::Hovered {
                    68
                } else {
                    76
                },
                ..dark
            })
            &&& primary_style(ButtonStatus::Disabled, focused).background == (Tint {
                alpha: 34,
                ..dark
            })
            &&& input_style(focused).background == (Tint { alpha: 72, ..dark })
        }),
{
}

/// The button that goes on is blue, brighter under the pointer and darker where it is
/// pressed; one that destroys something is red whatever happens to it, and like it in
/// everything else.
pub proof fn law_buttons_show_what_they_do(status: ButtonStatus, focused: bool)
    ensures
        primary_style(ButtonStatus::Active, focused).background == (Tint {
            red: 56,
            green: 92,
            blue: 204,
            alpha: 100,
        }),
        primary_style(ButtonStatus::Hovered, focused).background == (Tint {
            red: 65,
            green: 105,
            blue: 225,
            alpha: 100,
        }),
        primary_style(ButtonStatus::Pressed, focused).background == (Tint {
            red: 47,
            green: 79,
            blue: 180,
            alpha: 100,
        }),
        input_style(focused).selection == primary_style(ButtonStatus::Hovered, focused).background,
        dialog_button_style(status, focused, true).background == (Tint {
            red: 170,
            green: 42,
            blue: 52,
            alpha: 72,
        }),
        dialog_button_style(status, focused, true).border == dialog_button_style(
            status,
            focused,
            false,
        ).border,
        dialog_button_style(status, focused, false) == primary_style(status, focused),
{
}

/// An outline is white; the focus makes it three pixels wide and nearly opaque, whatever
/// it is otherwise. Without it an outline is one pixel wide and as dense as it is to be,
/// but never fainter than 46 parts.
pub proof fn law_outlines_are_as_dense_as_asked(alpha: u8)
    ensures
        outlined(alpha, true) == (Outline {
            color: Tint { red: 255, green: 255, blue: 255, alpha: 95 },
            width: 3,
            radius: 18,
        }),
        outlined(alpha, false).width == 1,
        outlined(alpha, false).radius == 18,
        alpha >= 46 ==> outlined(alpha, false).color == (Tint {
            red: 255,
            green: 255,
            blue: 255,
            alpha,
        }),
        alpha < 46 ==> outlined(alpha, false).color == (Tint {
            red: 255,
            green: 255,
            blue: 255,
            alpha: 46,
        }),
{
}

/// Without the focus the outlines of controls differ in density: an account's by what
/// happens to it, a selector's under the pointer.
pub proof fn law_outlines_answer_the_pointer(status: ButtonStatus, choice: SelectorStatus)
    ensures
        account_style(status, false).border.color.alpha == (match status {
            ButtonStatus::Disabled => 46,
            ButtonStatus::Active => 52,
            ButtonStatus::Hovered => 62,
            ButtonStatus::Pressed => 72u8,
        }),
        selector_style(choice, false).border.color.alpha == (match choice {
            SelectorStatus::Active => 46,
            SelectorStatus::Hovered => 50,
            SelectorStatus::Opened => 95u8,
        }),
        primary_style(status, false).border.color.alpha == 46,
        secondary_style(status, false).border.color.alpha == 46,
        input_style(false).border.color.alpha == 46,
{
}

/// A scroll bar lights up where the pointer has it, and more where it is dragged; the one
/// beside it does not.
pub proof fn law_scroll_bars_light_up_by_themselves(horizontal: bool, vertical: bool)
    ensures
        touched(ScrollStatus::Active) == (false, false),
        touched(ScrollStatus::Hovered(horizontal, vertical)) == (horizontal, vertical),
        touched(ScrollStatus::Dragged(horizontal, vertical)) == (horizontal, vertical),
        thumb(ScrollStatus::Hovered(horizontal, vertical), true) == (Tint {
            red: 190,
            green: 196,
            blue: 220,
            alpha: 100,
        }),
        thumb(ScrollStatus::Dragged(horizontal, vertical), true) == (Tint {
            red: 225,
            green: 229,
            blue: 241,
            alpha: 100,
        }),
        thumb(ScrollStatus::Hovered(horizontal, vertical), false) == thumb(
            ScrollStatus::Active,
            false,
        ),
        thumb(ScrollStatus::Dragged(horizontal, vertical), false) == thumb(
            ScrollStatus::Active,
            false,
        ),
        thumb(ScrollStatus::Active, true) == thumb(ScrollStatus::Active, false),
        thumb(ScrollStatus::Active, false) == (Tint { red: 143, green: 151, blue: 180, alpha: 100 }),
{
}

} // verus!
