use fyrebird::event::{EventHandler, EventQueue, EventSystem};
use fyrebird::vulkan::{
    get_required_extensions, negotiate_layers, BootstrapAction, BootstrapError, BootstrapEvent, BootstrapPhase,
    ContextBootstrap, Platform, VulkanData,
};
use fyrebird::window::{BaseWindowAttr, GameWindow};
use std::cell::RefCell;

fn strings(v: &[&str]) -> Vec<String> {
    v.iter().map(|s| s.to_string()).collect()
}

#[test]
fn unknown_platform_fails_before_creation() {
    let mut b = ContextBootstrap::new(Platform::Web, true, "app".to_string());
    assert!(matches!(b.start(), BootstrapAction::LoadLoader));
    assert!(matches!(b.on_event(BootstrapEvent::LoaderBound), BootstrapAction::EnumerateLayers));
    match b.on_event(BootstrapEvent::LayersFound(vec![])) {
        BootstrapAction::Fail { release_loader, error } => {
            assert!(release_loader);
            assert_eq!(error, BootstrapError::UnsupportedPlatform { platform: Platform::Web });
        }
        BootstrapAction::CreateContext(_) => panic!("creation requested"),
        _ => panic!("unexpected action"),
    }
    assert_eq!(b.phase(), BootstrapPhase::Failed);
    assert!(matches!(b.on_event(BootstrapEvent::ContextCreated), BootstrapAction::Nothing));
}

#[test]
fn full_negotiation_with_validation() {
    let mut b = ContextBootstrap::new(Platform::Xlib, true, "Teste".to_string());
    b.start();
    b.on_event(BootstrapEvent::LoaderBound);
    let layers = strings(&["VK_LAYER_other", "VK_LAYER_KHRONOS_validation"]);
    match b.on_event(BootstrapEvent::LayersFound(layers)) {
        BootstrapAction::CreateContext(req) => {
            assert_eq!(req.application_name, "Teste");
            assert_eq!(req.engine_name, "No Engine");
            assert_eq!(req.api_version, 4_194_304);
            assert_eq!(req.layers, strings(&["VK_LAYER_KHRONOS_validation"]));
            assert_eq!(req.extensions, strings(&["VK_KHR_xlib_surface", "VK_KHR_surface", "VK_EXT_debug_utils"]));
        }
        _ => panic!("expected a creation request"),
    }
    assert!(!b.validation_missing());
    assert!(matches!(b.on_event(BootstrapEvent::ContextCreated), BootstrapAction::Finish));
    assert_eq!(b.phase(), BootstrapPhase::Ready);
}

#[test]
fn missing_validation_layer_is_only_a_warning() {
    let mut b = ContextBootstrap::new(Platform::Win32, true, "app".to_string());
    b.start();
    b.on_event(BootstrapEvent::LoaderBound);
    match b.on_event(BootstrapEvent::LayersFound(vec![])) {
        BootstrapAction::CreateContext(req) => assert!(req.layers.is_empty()),
        _ => panic!("expected a creation request"),
    }
    assert!(b.validation_missing());
}

#[test]
fn loader_missing_and_creation_failure() {
    let mut b = ContextBootstrap::new(Platform::Android, false, "app".to_string());
    b.start();
    match b.on_event(BootstrapEvent::LoaderUnavailable) {
        BootstrapAction::Fail { release_loader, error } => {
            assert!(!release_loader);
            assert_eq!(error, BootstrapError::LoaderUnavailable);
        }
        _ => panic!("expected failure"),
    }
    let mut b = ContextBootstrap::new(Platform::Android, false, "app".to_string());
    b.start();
    b.on_event(BootstrapEvent::LoaderBound);
    b.on_event(BootstrapEvent::LayersFound(vec![]));
    match b.on_event(BootstrapEvent::ContextFailed(-9)) {
        BootstrapAction::Fail { release_loader, error } => {
            assert!(release_loader);
            assert_eq!(error, BootstrapError::ContextCreationFailed { code: -9 });
        }
        _ => panic!("expected failure"),
    }
}

#[test]
fn extension_lists_per_platform() {
    assert_eq!(get_required_extensions(Platform::Wayland, false).unwrap(), strings(&["VK_KHR_wayland_surface", "VK_KHR_surface"]));
    assert_eq!(get_required_extensions(Platform::AppKit, false).unwrap(), strings(&["VK_MVK_macos_surface", "VK_KHR_surface"]));
    assert_eq!(get_required_extensions(Platform::Win32, true), get_required_extensions(Platform::Win32, true));
    assert_eq!(get_required_extensions(Platform::Xcb, false), Err(BootstrapError::UnsupportedPlatform { platform: Platform::Xcb }));
}

#[test]
fn layers_untouched_without_debug() {
    let (layers, missing) = negotiate_layers(&strings(&["VK_LAYER_KHRONOS_validation"]), false);
    assert!(layers.is_empty());
    assert!(!missing);
    let _data = VulkanData::default();
}

#[test]
fn window_lifecycle() {
    let attr = BaseWindowAttr { title: "t".to_string(), height: 10, width: 20, fullscreen: false };
    let mut w: GameWindow<&str> = GameWindow::new(attr);
    assert!(w.window().is_none());
    assert_eq!(w.platform(), None);
    assert_eq!(w.init("first", Platform::Xlib), None);
    assert_eq!(w.init("second", Platform::Wayland), Some("second"));
    assert_eq!(w.window(), Some(&"first"));
    assert_eq!(w.platform(), Some(Platform::Xlib));
    assert_eq!(w.take_resize(), None);
    w.on_resize(30, 40);
    assert_eq!(w.take_resize(), Some((30, 40)));
    assert_eq!(w.take_resize(), None);
    assert_eq!(w.attributes().title, "t");
    assert_eq!(w.destroy(), Some("first"));
    assert!(!w.is_ready());
}

struct Log<'a>(&'a RefCell<Vec<String>>, &'static str);

impl<'a> EventHandler<u32> for Log<'a> {
    fn handle(&self, event: &u32) {
        self.0.borrow_mut().push(format!("{}:{}", self.1, event));
    }
}

#[test]
fn events_reach_their_kind_in_order() {
    let seen = RefCell::new(Vec::new());
    let mut sys = EventSystem::new();
    sys.subscribe(1, Log(&seen, "a"));
    sys.subscribe(2, Log(&seen, "b"));
    sys.subscribe(1, Log(&seen, "c"));
    assert_eq!(sys.dispatch(1, &5u32), vec![0, 2]);
    assert_eq!(*seen.borrow(), vec!["a:5".to_string(), "c:5".to_string()]);
    sys.clear(1);
    assert_eq!(sys.dispatch(1, &6u32), Vec::<usize>::new());
    assert_eq!(sys.dispatch(2, &7u32), vec![0]);
    assert_eq!(seen.borrow().last().unwrap(), "b:7");
    sys.clear_all();
    assert!(sys.dispatch(2, &8u32).is_empty());
    assert_eq!(seen.borrow().len(), 3);
}

#[test]
fn queue_hands_back_latest_first() {
    let mut q = EventQueue::new();
    q.push("x");
    q.push("y");
    assert_eq!(q.len(), 2);
    assert_eq!(q.pop(), Some("y"));
    assert_eq!(q.pop(), Some("x"));
    assert_eq!(q.pop(), None);
}
