use busy_term::icon::{busy_frame, tray_icon, IconUpdater, TrayIcon, BUSY_FRAME_COUNT};

#[test]
fn busy_frames_wrap_around() {
    assert_eq!(BUSY_FRAME_COUNT, 4);
    assert_eq!(busy_frame(0), 0);
    assert_eq!(busy_frame(3), 3);
    assert_eq!(busy_frame(5), 1);
    assert_eq!(busy_frame(usize::MAX), usize::MAX % 4);
}

#[test]
fn tray_icon_by_state() {
    assert_eq!(tray_icon(false, true, 2), TrayIcon::Idle);
    assert_eq!(tray_icon(false, false, 2), TrayIcon::Offline);
    assert_eq!(tray_icon(true, false, 6), TrayIcon::Busy(2));
}

#[test]
fn updater_sets_only_changes_and_animates_while_busy() {
    let mut u = IconUpdater::new();
    assert_eq!(u.tick(false, false), Some(TrayIcon::Offline));
    assert_eq!(u.tick(false, false), None);
    assert_eq!(u.tick(false, true), Some(TrayIcon::Idle));
    assert_eq!(u.tick(true, true), Some(TrayIcon::Busy(0)));
    assert_eq!(u.tick(true, true), Some(TrayIcon::Busy(1)));
    assert_eq!(u.tick(true, true), Some(TrayIcon::Busy(2)));
    assert_eq!(u.tick(true, true), Some(TrayIcon::Busy(3)));
    assert_eq!(u.tick(true, false), Some(TrayIcon::Busy(0)));
    assert_eq!(u.tick(false, true), Some(TrayIcon::Idle));
    assert_eq!(u.tick(true, true), Some(TrayIcon::Busy(0)));
}
