use vstd::prelude::*;

verus! {

pub const DIR_LEFT: u8 = 1;
pub const DIR_RIGHT: u8 = 2;
pub const DIR_UP: u8 = 4;
pub const DIR_DOWN: u8 = 8;

/// What the player pressed since the last frame.
#[derive(Clone, Copy, Debug, PartialEq, Eq, Structural)]
pub struct PlayerInput {
    pub dir_mask: u8,
    pub button: bool,
    pub code: bool,
    pub pause: bool,
    pub quit: bool,
    pub last_char: u8,
    pub save: bool,
    pub load: bool,
    pub fast_mode: bool,
    pub state_slot: i8,
}

impl PlayerInput {
    pub fn new() -> (r: Self)
        ensures
            r == (PlayerInput {
                dir_mask: 0,
                button: false,
                code: false,
                pause: false,
                quit: false,
                last_char: 0,
                save: false,
                load: false,
                fast_mode: false,
                state_slot: 0,
            }),
    {
        PlayerInput {
            dir_mask: 0,
            button: false,
            code: false,
            pause: false,
            quit: false,
            last_char: 0,
            save: false,
            load: false,
            fast_mode: false,
            state_slot: 0,
        }
    }
}

/// What the core asks of the rendering and audio collaborators.
#[derive(Clone, Copy, Debug, PartialEq, Eq, Structural)]
pub enum Request {
    SelectPage { page: u8 },
    FillPage { page: u8, color: u8 },
    CopyPage { src: u8, dst: u8, vscroll: i16 },
    /// Shows a page; the frame should stay on screen for `hold_ms` milliseconds.
    Present { page: u8, hold_ms: i32 },
    DrawString { color: u8, x: u8, y: u8, str_id: u16 },
    SetPalette { pal_id: u8 },
    /// Draws the polygon at `offset` of the cinematic data, or of the second polygon resource.
    DrawPolygon { cinematic: bool, offset: usize, color: u8, zoom: u16, x: i16, y: i16 },
    /// Plays the samples at `data_offset` of the memory block: past the sound's 8-byte header.
    PlaySound { data_offset: usize, freq: u16, volume: u8, channel: u8 },
    StopSound { channel: u8 },
    PlayMusic { res_id: u16, delay: u16, pos: u8 },
    SetMusicDelay { delay: u16 },
    StopMusic,
    StopAllSounds,
    /// The game is paused until the player presses pause again.
    WaitForUnpause,
}

} // verus!
