//! Which tray icon to show. There are three states: busy (a block cursor
//! bobbing up and down, frame by frame), idle with the daemon connected, and
//! idle with the daemon offline.
use vstd::prelude::*;

verus! {

/// The number of frames of the busy animation.
pub const BUSY_FRAME_COUNT: usize = 4;

/// A tray icon.
#[derive(PartialEq, Eq, Structural, Clone, Copy, Debug)]
pub enum TrayIcon {
    /// Idle, daemon connected: a solid underscore.
    Idle,
    /// Idle, daemon not connected: a hollow underscore.
    Offline,
    /// Busy: the given frame of the animation.
    Busy(usize),
}

/// The frame of the busy animation shown at step `frame`: frames loop, so any
/// step is valid.
pub fn busy_frame(frame: usize) -> (f: usize)
    ensures
        f == frame % BUSY_FRAME_COUNT,
        f < BUSY_FRAME_COUNT,
{
    frame % BUSY_FRAME_COUNT
}

/// The icon for the state: busy while some command is shown, else idle or
/// offline by whether the daemon's socket is connected.
pub open spec fn icon_for(busy: bool, connected: bool, frame: usize) -> TrayIcon {
    if busy {
        TrayIcon::Busy((frame % BUSY_FRAME_COUNT) as usize)
    } else if connected {
        TrayIcon::Idle
    } else {
        TrayIcon::Offline
    }
}

/// The icon for the state (see `icon_for`).
pub fn tray_icon(busy: bool, connected: bool, frame: usize) -> (icon: TrayIcon)
    ensures
        icon == icon_for(busy, connected, frame),
{
    if busy {
        TrayIcon::Busy(busy_frame(frame))
    } else if connected {
        TrayIcon::Idle
    } else {
        TrayIcon::Offline
    }
}

/// What the tray shows, and the animation step. The tray is polled rather
/// than updated on events: a command crossing the age threshold produces no
/// event, it becomes visible while it runs.
pub struct IconUpdater {
    shown: Option<TrayIcon>,
    frame: usize,
}

impl IconUpdater {
    /// The icon on the tray, if one has been set.
    pub closed spec fn shown(&self) -> Option<TrayIcon> {
        self.shown
    }

    /// The animation step for the next busy icon.
    pub closed spec fn step(&self) -> usize {
        self.frame
    }

    /// An updater that has shown nothing yet.
    pub fn new() -> (u: IconUpdater)
        ensures
            u.shown() is None,
            u.step() == 0,
    {
        IconUpdater { shown: None, frame: 0 }
    }

    /// One poll: the icon to set, or `None` where the tray already shows it.
    /// While busy the animation moves on by one frame per poll; when idle it
    /// starts over.
    pub fn tick(&mut self, busy: bool, connected: bool) -> (set: Option<TrayIcon>)
        ensures
            final(self).shown() == Some(icon_for(busy, connected, old(self).step())),
            set == if old(self).shown() == Some(icon_for(busy, connected, old(self).step())) {
                None
            } else {
                Some(icon_for(busy, connected, old(self).step()))
            },
            busy ==> final(self).step() == (old(self).step() % BUSY_FRAME_COUNT + 1) % (
            BUSY_FRAME_COUNT as int),
            !busy ==> final(self).step() == 0,
            final(self).step() < BUSY_FRAME_COUNT,
    {
        let icon = tray_icon(busy, connected, self.frame);
        self.frame = if busy {
            (self.frame % BUSY_FRAME_COUNT + 1) % BUSY_FRAME_COUNT
        } else {
            0
        };
        let unchanged = match self.shown {
            Some(current) => current == icon,
            None => false,
        };
        self.shown = Some(icon);
        if unchanged {
            None
        } else {
            Some(icon)
        }
    }
}

/// Law: the icon shows busy exactly while some command is shown, and then
/// always a frame that exists.
pub proof fn law_busy_icon_iff_busy(busy: bool, connected: bool, frame: usize)
    ensures
        icon_for(busy, connected, frame) is Busy <==> busy,
        icon_for(busy, connected, frame) matches TrayIcon::Busy(f) ==> f < BUSY_FRAME_COUNT,
{
}

/// Law: while busy, consecutive polls show consecutive frames, so the tray
/// is redrawn on every poll and the animation loops.
pub proof fn law_busy_frames_advance(step: usize)
    requires
        step < BUSY_FRAME_COUNT,
    ensures
        icon_for(true, true, step) != icon_for(true, true, ((step + 1) % (BUSY_FRAME_COUNT as int)) as usize),
{
}

} // verus!
