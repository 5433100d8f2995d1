use vstd::prelude::*;
use crate::geometry::Position;
use crate::store::{lookup, with_window_position, Config, WindowPosition};
use crate::text::lower_of;

verus! {

/// The save flow: records the focused window's geometry under the command,
/// for the window's class and the current resolution.
pub fn save_window_position(
    command_name: &str,
    config: &mut Config,
    window_name: String,
    position: Position,
    screen_resolution: String,
)
    ensures
        final(config)@ == with_window_position(
            old(config)@,
            screen_resolution@,
            command_name@,
            (seq![lower_of(window_name@)], position),
        ),
        old(config).wf() ==> final(config).wf(),
{
    config.add_window_position(command_name, screen_resolution, WindowPosition::new(window_name, position));
}

/// The move flow: the geometry to apply to the focused window. The zero
/// rectangle comes back where nothing was recorded, and is applied as is.
pub fn move_window_position(
    command_name: &str,
    config: &Config,
    window_name: &str,
    screen_resolution: &str,
) -> (r: Position)
    ensures
        r == lookup(config@, screen_resolution@, command_name@, window_name@),
{
    config.get_position(screen_resolution, command_name, window_name)
}

} // verus!
