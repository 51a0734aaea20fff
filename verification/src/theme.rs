//! The colors of a window's decorations.
//!
//! Every color is four bytes in the order alpha, red, green, blue.

use vstd::prelude::*;

verus! {

/// What the pointer is doing to a button of the title bar.
#[derive(Clone, Copy, PartialEq, Eq, Structural, Debug)]
pub enum ButtonState {
    /// The pointer is over the button.
    Hovered,
    /// The pointer is elsewhere.
    Idle,
    /// The button cannot be used.
    Disabled,
}

/// The colors of the title bar and of its buttons.
pub struct WaylandTheme {
    /// Primary color when the window is focused
    pub primary_active: [u8; 4],
    /// Primary color when the window is unfocused
    pub primary_inactive: [u8; 4],
    /// Secondary color when the window is focused
    pub secondary_active: [u8; 4],
    /// Secondary color when the window is unfocused
    pub secondary_inactive: [u8; 4],
    /// Close button color when hovered over
    pub close_button_hovered: [u8; 4],
    /// Close button color
    pub close_button: [u8; 4],
    /// Close button icon color when hovered over
    pub close_button_icon_hovered: [u8; 4],
    /// Close button icon color
    pub close_button_icon: [u8; 4],
    /// Maximize button color when hovered over
    pub maximize_button_hovered: [u8; 4],
    /// Maximize button color
    pub maximize_button: [u8; 4],
    /// Minimize button color when hovered over
    pub minimize_button_hovered: [u8; 4],
    /// Minimize button color
    pub minimize_button: [u8; 4],
}

impl WaylandTheme {
    /// The color of the title bar, by whether the window is focused.
    pub fn get_primary_color(&self, active: bool) -> (color: [u8; 4])
        ensures
            color == (if active {
                self.primary_active
            } else {
                self.primary_inactive
            }),
    {
        if active {
            self.primary_active
        } else {
            self.primary_inactive
        }
    }

    /// The color of the line under the title bar, by whether the window is
    /// focused.
    pub fn get_secondary_color(&self, active: bool) -> (color: [u8; 4])
        ensures
            color == (if active {
                self.secondary_active
            } else {
                self.secondary_inactive
            }),
    {
        if active {
            self.secondary_active
        } else {
            self.secondary_inactive
        }
    }

    /// The background of the close button: its own color under the pointer,
    /// the plain one otherwise.
    pub fn get_close_button_color(&self, state: ButtonState) -> (color: [u8; 4])
        ensures
            color == (match state {
                ButtonState::Hovered => self.close_button_hovered,
                ButtonState::Idle => self.close_button,
                ButtonState::Disabled => self.close_button,
            }),
    {
        match state {
            ButtonState::Hovered => self.close_button_hovered,
            ButtonState::Idle => self.close_button,
            ButtonState::Disabled => self.close_button,
        }
    }

    /// The color of the cross on the close button. A disabled button shows
    /// its cross in the color of its own background, so the cross vanishes.
    pub fn get_close_button_icon_color(&self, state: ButtonState) -> (color: [u8; 4])
        ensures
            color == (match state {
                ButtonState::Hovered => self.close_button_icon_hovered,
                ButtonState::Idle => self.close_button_icon,
                ButtonState::Disabled => self.close_button,
            }),
    {
        match state {
            ButtonState::Hovered => self.close_button_icon_hovered,
            ButtonState::Idle => self.close_button_icon,
            ButtonState::Disabled => self.close_button,
        }
    }

    /// The background of the maximize button: its own color under the
    /// pointer, the plain one otherwise.
    pub fn get_maximize_button_color(&self, state: ButtonState) -> (color: [u8; 4])
        ensures
            color == (match state {
                ButtonState::Hovered => self.maximize_button_hovered,
                ButtonState::Idle => self.maximize_button,
                ButtonState::Disabled => self.maximize_button,
            }),
    {
        match state {
            ButtonState::Hovered => self.maximize_button_hovered,
            _ => self.maximize_button,
        }
    }

    /// The background of the minimize button: its own color under the
    /// pointer, the plain one otherwise.
    pub fn get_minimize_button_color(&self, state: ButtonState) -> (color: [u8; 4])
        ensures
            color == (match state {
                ButtonState::Hovered => self.minimize_button_hovered,
                ButtonState::Idle => self.minimize_button,
                ButtonState::Disabled => self.minimize_button,
            }),
    {
        match state {
            ButtonState::Hovered => self.minimize_button_hovered,
            _ => self.minimize_button,
        }
    }
}

} // verus!
