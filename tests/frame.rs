use my_engine::frame::{
    recovery_for, surface_format_index, FrameRecovery, SurfaceFailure, Viewport, WindowSize,
};
use my_engine::input::{key_movement, CameraController, CameraMotion, InputEvent, KeyCode, Movement};

#[test]
fn resize_to_zero_width_is_ignored() {
    let mut viewport = Viewport::new(WindowSize { width: 801, height: 600 });
    assert!(!viewport.resize(WindowSize { width: 0, height: 600 }));
    assert_eq!(viewport.size(), WindowSize { width: 801, height: 600 });
    assert!(!viewport.resize(WindowSize { width: 640, height: 0 }));
    assert_eq!(viewport.size(), WindowSize { width: 801, height: 600 });
}

#[test]
fn resize_to_nonzero_is_recorded() {
    let mut viewport = Viewport::new(WindowSize { width: 801, height: 600 });
    assert!(viewport.resize(WindowSize { width: 1024, height: 768 }));
    assert_eq!(viewport.size(), WindowSize { width: 1024, height: 768 });
    assert!(WindowSize { width: 1, height: 1 }.is_drawable());
    assert!(!WindowSize { width: 0, height: 0 }.is_drawable());
}

#[test]
fn lost_and_outdated_surfaces_are_reconfigured() {
    assert_eq!(recovery_for(SurfaceFailure::Lost), FrameRecovery::Reconfigure);
    assert_eq!(recovery_for(SurfaceFailure::Outdated), FrameRecovery::Reconfigure);
    assert_eq!(recovery_for(SurfaceFailure::Timeout), FrameRecovery::Fatal);
    assert_eq!(recovery_for(SurfaceFailure::OutOfMemory), FrameRecovery::Fatal);
}

#[test]
fn srgb_format_is_preferred() {
    assert_eq!(surface_format_index(&vec![false, true, true]), Some(1));
    assert_eq!(surface_format_index(&vec![false, false]), Some(0));
    assert_eq!(surface_format_index(&vec![]), None);
}

#[test]
fn controller_tracks_movement_keys() {
    let mut c = CameraController::new();
    assert!(c.update_camera().is_empty());
    assert!(c.process_events(&InputEvent::KeyDown(KeyCode::W)));
    assert!(c.process_events(&InputEvent::KeyDown(KeyCode::Left)));
    assert!(c.process_events(&InputEvent::KeyDown(KeyCode::Space)));
    assert!(c.is_up_pressed);
    assert!(!c.process_events(&InputEvent::KeyDown(KeyCode::Other)));
    assert!(!c.process_events(&InputEvent::Quit));
    assert!(!c.process_events(&InputEvent::Resize { width: 3, height: 4 }));
    assert_eq!(c.update_camera(), vec![CameraMotion::Forward, CameraMotion::OrbitLeft]);
    assert!(c.process_events(&InputEvent::KeyUp(KeyCode::Up)));
    assert!(c.process_events(&InputEvent::KeyDown(KeyCode::D)));
    assert!(c.process_events(&InputEvent::KeyDown(KeyCode::S)));
    assert_eq!(
        c.update_camera(),
        vec![CameraMotion::Backward, CameraMotion::OrbitRight, CameraMotion::OrbitLeft]
    );
}

#[test]
fn keys_map_to_movements() {
    assert_eq!(key_movement(KeyCode::Space), Some(Movement::Up));
    assert_eq!(key_movement(KeyCode::LShift), Some(Movement::Down));
    assert_eq!(key_movement(KeyCode::Up), Some(Movement::Forward));
    assert_eq!(key_movement(KeyCode::A), Some(Movement::Left));
    assert_eq!(key_movement(KeyCode::Down), Some(Movement::Backward));
    assert_eq!(key_movement(KeyCode::Right), Some(Movement::Right));
    assert_eq!(key_movement(KeyCode::Other), None);
}
