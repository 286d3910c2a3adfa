//! Decisions of the graphics-context bootstrap: which layers and extensions
//! to ask for, and in what order the native steps run. The native calls
//! themselves are made by the caller, which reports back what happened.
use vstd::prelude::*;

verus! {

/// Relies on `ash::vk::make_api_version`: packs a version as the Vulkan
/// specification lays it out.
pub assume_specification[ ash::vk::make_api_version ](
    variant: u32,
    major: u32,
    minor: u32,
    patch: u32,
) -> (r: u32)
    ensures
        r == ((variant << 29u32) | (major << 22u32) | (minor << 12u32) | patch),
;

/// Layer enabled for validation when the debug flag is set.
pub const VALIDATION_LAYER_NAME: &'static str = "VK_LAYER_KHRONOS_validation";

/// Extension needed to present to any window.
pub const SURFACE_EXTENSION: &'static str = "VK_KHR_surface";

/// Extension for debug messengers, asked for when the debug flag is set.
pub const DEBUG_UTILS_EXTENSION: &'static str = "VK_EXT_debug_utils";

/// Engine name handed to the driver.
pub const ENGINE_NAME: &'static str = "No Engine";

/// Window system of a surface.
#[derive(Clone, Copy, PartialEq, Eq, Structural, Debug)]
pub enum Platform {
    Win32,
    Wayland,
    Xlib,
    Xcb,
    Android,
    AppKit,
    UiKit,
    Web,
    /// Any other window system.
    Other,
}

/// Why no graphics context could be had.
#[derive(Clone, Copy, PartialEq, Eq, Structural, Debug)]
pub enum BootstrapError {
    /// The driver loader could not be bound.
    LoaderUnavailable,
    /// No surface extension is known for the window system.
    UnsupportedPlatform { platform: Platform },
    /// The driver refused to create the context, with its own code.
    ContextCreationFailed { code: i32 },
}

/// The platform's surface extension, if the platform is supported.
pub open spec fn surface_extension_of(p: Platform) -> Option<Seq<char>> {
    match p {
        Platform::Win32 => Some("VK_KHR_win32_surface"@),
        Platform::Wayland => Some("VK_KHR_wayland_surface"@),
        Platform::Xlib => Some("VK_KHR_xlib_surface"@),
        Platform::Android => Some("VK_KHR_android_surface"@),
        Platform::AppKit => Some("VK_MVK_macos_surface"@),
        _ => None,
    }
}

/// The extensions a context needs: the platform's surface extension, the
/// generic surface extension, and the debug-utilities extension under the
/// debug flag. `None` for a platform with no surface extension.
pub open spec fn required_extensions(p: Platform, debug: bool) -> Option<Seq<Seq<char>>> {
    match surface_extension_of(p) {
        Some(e) => Some(
            if debug {
                seq![e, SURFACE_EXTENSION@, DEBUG_UTILS_EXTENSION@]
            } else {
                seq![e, SURFACE_EXTENSION@]
            },
        ),
        None => None,
    }
}

/// Views of a list of strings.
pub open spec fn views(v: Seq<String>) -> Seq<Seq<char>> {
    Seq::new(v.len(), |i: int| v[i]@)
}

/// The layers to enable: the validation layer when the debug flag is set and
/// the driver offers it, else none.
pub open spec fn chosen_layers(available: Seq<Seq<char>>, debug: bool) -> Seq<Seq<char>> {
    if debug && available.contains(VALIDATION_LAYER_NAME@) {
        seq![VALIDATION_LAYER_NAME@]
    } else {
        Seq::empty()
    }
}

/// The platform's surface extension, if the platform is supported.
pub fn surface_extension(p: Platform) -> (r: Option<String>)
    ensures
        match r {
            Some(s) => surface_extension_of(p) == Some(s@),
            None => surface_extension_of(p) is None,
        },
{
    match p {
        Platform::Win32 => Some(String::from_str("VK_KHR_win32_surface")),
        Platform::Wayland => Some(String::from_str("VK_KHR_wayland_surface")),
        Platform::Xlib => Some(String::from_str("VK_KHR_xlib_surface")),
        Platform::Android => Some(String::from_str("VK_KHR_android_surface")),
        Platform::AppKit => Some(String::from_str("VK_MVK_macos_surface")),
        _ => None,
    }
}

/// The extensions a context on platform `p` needs; see [`required_extensions`].
pub fn get_required_extensions(p: Platform, debug: bool) -> (r: Result<Vec<String>, BootstrapError>)
    ensures
        match r {
            Ok(v) => required_extensions(p, debug) == Some(views(v@)),
            Err(e) => required_extensions(p, debug) is None && e == (BootstrapError::UnsupportedPlatform {
                platform: p,
            }),
        },
{
    match surface_extension(p) {
        Some(e) => {
            let mut v: Vec<String> = Vec::new();
            v.push(e);
            v.push(String::from_str(SURFACE_EXTENSION));
            if debug {
                v.push(String::from_str(DEBUG_UTILS_EXTENSION));
            }
            proof {
                assert(views(v@) =~= required_extensions(p, debug).unwrap());
            }
            Ok(v)
        },
        None => Err(BootstrapError::UnsupportedPlatform { platform: p }),
    }
}

/// The layers to enable among those the driver offers, and whether the
/// validation layer was wanted but missing (a warning, never an error).
pub fn negotiate_layers(available: &Vec<String>, debug: bool) -> (r: (Vec<String>, bool))
    ensures
        views(r.0@) == chosen_layers(views(available@), debug),
        r.1 == (debug && !views(available@).contains(VALIDATION_LAYER_NAME@)),
{
    let mut layers: Vec<String> = Vec::new();
    if !debug {
        proof {
            assert(views(layers@) =~= chosen_layers(views(available@), debug));
        }
        return (layers, false);
    }
    let want = String::from_str(VALIDATION_LAYER_NAME);
    let mut i: usize = 0;
    while i < available.len()
        invariant
            i <= available@.len(),
            want@ == VALIDATION_LAYER_NAME@,
            layers@.len() == 0,
            debug,
            forall|k: int| 0 <= k < i ==> available@[k]@ != VALIDATION_LAYER_NAME@,
        decreases available@.len() - i,
    {
        if available[i] == want {
            layers.push(want);
            proof {
                assert(views(available@)[i as int] == VALIDATION_LAYER_NAME@);
                assert(views(available@).contains(VALIDATION_LAYER_NAME@));
                assert(views(layers@) =~= chosen_layers(views(available@), debug));
            }
            return (layers, false);
        }
        i = i + 1;
    }
    proof {
        assert(!views(available@).contains(VALIDATION_LAYER_NAME@)) by {
            if views(available@).contains(VALIDATION_LAYER_NAME@) {
                let k = choose|k: int| 0 <= k < available@.len() && views(available@)[k] == VALIDATION_LAYER_NAME@;
                assert(available@[k]@ == VALIDATION_LAYER_NAME@);
            }
        }
        assert(views(layers@) =~= chosen_layers(views(available@), debug));
    }
    (layers, true)
}

/// Extension resolution is a function of the platform and the debug flag
/// alone: equal inputs give equal lists, and a platform without a surface
/// extension always gives none.
pub proof fn lemma_extensions_pure(pa: Platform, da: bool, pb: Platform, db: bool)
    requires
        pa == pb,
        da == db,
    ensures
        required_extensions(pa, da) == required_extensions(pb, db),
        surface_extension_of(pa) is None ==> required_extensions(pa, da) is None,
        surface_extension_of(pa) is Some ==> required_extensions(pa, da) is Some,
{
}

/// Version 1.0.0 of the API, as packed by the driver interface.
pub open spec fn api_version_1_0() -> u32 {
    0x0040_0000
}

/// Driver-side state kept beside a context; none yet.
#[derive(Clone, Copy, PartialEq, Eq, Structural, Debug, Default)]
pub struct VulkanData {}

/// Everything the single native creation call is handed. All names are
/// owned here, so they outlive the call that borrows them.
pub struct InstanceRequest {
    pub application_name: String,
    pub engine_name: String,
    pub api_version: u32,
    pub layers: Vec<String>,
    pub extensions: Vec<String>,
}

/// Where a bootstrap stands.
#[derive(Clone, Copy, PartialEq, Eq, Structural, Debug)]
pub enum BootstrapPhase {
    /// Not started.
    Start,
    /// Waiting for the driver loader to be bound.
    LoadingLoader,
    /// Waiting for the driver's layer list.
    Enumerating,
    /// Waiting for the creation call to return.
    Creating,
    /// The context exists.
    Ready,
    /// Failed for good.
    Failed,
}

/// What the caller reports after performing an action.
pub enum BootstrapEvent {
    LoaderBound,
    LoaderUnavailable,
    /// The layers the driver offers; an empty list when none could be read.
    LayersFound(Vec<String>),
    ContextCreated,
    /// The creation call failed with this native code.
    ContextFailed(i32),
}

/// What the caller must do next.
pub enum BootstrapAction {
    LoadLoader,
    EnumerateLayers,
    /// Make the one native creation call with this request.
    CreateContext(InstanceRequest),
    /// The context is ready; keep it.
    Finish,
    /// Stop, releasing the loader first when `release_loader` is set.
    Fail { release_loader: bool, error: BootstrapError },
    /// The event does not apply in the current phase.
    Nothing,
}

/// The native-context negotiation, one step per reported event.
pub struct ContextBootstrap {
    platform: Platform,
    debug: bool,
    application_name: String,
    phase: BootstrapPhase,
    validation_missing: bool,
}

impl ContextBootstrap {
    pub closed spec fn spec_platform(&self) -> Platform {
        self.platform
    }

    pub closed spec fn spec_debug(&self) -> bool {
        self.debug
    }

    pub closed spec fn spec_application_name(&self) -> Seq<char> {
        self.application_name@
    }

    pub closed spec fn spec_phase(&self) -> BootstrapPhase {
        self.phase
    }

    pub closed spec fn spec_validation_missing(&self) -> bool {
        self.validation_missing
    }

    /// A bootstrap that has not started.
    pub fn new(platform: Platform, debug: bool, application_name: String) -> (r: ContextBootstrap)
        ensures
            r.spec_platform() == platform,
            r.spec_debug() == debug,
            r.spec_application_name() == application_name@,
            r.spec_phase() == BootstrapPhase::Start,
            !r.spec_validation_missing(),
    {
        ContextBootstrap { platform, debug, application_name, phase: BootstrapPhase::Start, validation_missing: false }
    }

    /// Window system of the surface.
    pub fn platform(&self) -> (r: Platform)
        ensures
            r == self.spec_platform(),
    {
        self.platform
    }

    /// Where the bootstrap stands.
    pub fn phase(&self) -> (r: BootstrapPhase)
        ensures
            r == self.spec_phase(),
    {
        self.phase
    }

    /// Whether validation was asked for and the driver did not offer it.
    pub fn validation_missing(&self) -> (r: bool)
        ensures
            r == self.spec_validation_missing(),
    {
        self.validation_missing
    }

    /// The first step: bind the loader. Does nothing once started.
    pub fn start(&mut self) -> (r: BootstrapAction)
        ensures
            final(self).spec_platform() == old(self).spec_platform(),
            final(self).spec_debug() == old(self).spec_debug(),
            final(self).spec_application_name() == old(self).spec_application_name(),
            final(self).spec_validation_missing() == old(self).spec_validation_missing(),
            old(self).spec_phase() == BootstrapPhase::Start ==> final(self).spec_phase()
                == BootstrapPhase::LoadingLoader && r is LoadLoader,
            old(self).spec_phase() != BootstrapPhase::Start ==> final(self).spec_phase()
                == old(self).spec_phase() && r is Nothing,
    {
        if self.phase == BootstrapPhase::Start {
            self.phase = BootstrapPhase::LoadingLoader;
            BootstrapAction::LoadLoader
        } else {
            BootstrapAction::Nothing
        }
    }

    /// The request for the creation call, from the layers the driver offers.
    fn request(&self, available: &Vec<String>, extensions: Vec<String>) -> (r: (InstanceRequest, bool))
        ensures
            r.0.application_name@ == self.spec_application_name(),
            r.0.engine_name@ == ENGINE_NAME@,
            r.0.api_version == api_version_1_0(),
            r.0.extensions == extensions,
            views(r.0.layers@) == chosen_layers(views(available@), self.spec_debug()),
            r.1 == (self.spec_debug() && !views(available@).contains(VALIDATION_LAYER_NAME@)),
    {
        let (layers, missing) = negotiate_layers(available, self.debug);
        let api_version = ash::vk::make_api_version(0, 1, 0, 0);
        proof {
            assert(((0u32 << 29u32) | (1u32 << 22u32) | (0u32 << 12u32) | 0u32) == 0x0040_0000u32)
                by (bit_vector);
        }
        (
            InstanceRequest {
                application_name: self.application_name.clone(),
                engine_name: String::from_str(ENGINE_NAME),
                api_version,
                layers,
                extensions,
            },
            missing,
        )
    }

    /// Takes what the caller observed and says what to do next. Steps run in
    /// a fixed order: loader, layer list, extension resolution, creation. A
    /// missing validation layer is only recorded. An unsupported platform
    /// fails before any creation request, releasing the loader; so does a
    /// failed creation, with the driver's code.
    pub fn on_event(&mut self, event: BootstrapEvent) -> (r: BootstrapAction)
        ensures
            final(self).spec_platform() == old(self).spec_platform(),
            final(self).spec_debug() == old(self).spec_debug(),
            final(self).spec_application_name() == old(self).spec_application_name(),
            ({
                let p = old(self).spec_platform();
                let d = old(self).spec_debug();
                match (old(self).spec_phase(), event) {
                    (BootstrapPhase::LoadingLoader, BootstrapEvent::LoaderBound) => {
                        &&& final(self).spec_phase() == BootstrapPhase::Enumerating
                        &&& r is EnumerateLayers
                        &&& final(self).spec_validation_missing() == old(self).spec_validation_missing()
                    },
                    (BootstrapPhase::LoadingLoader, BootstrapEvent::LoaderUnavailable) => {
                        &&& final(self).spec_phase() == BootstrapPhase::Failed
                        &&& final(self).spec_validation_missing() == old(self).spec_validation_missing()
                        &&& match r {
                            BootstrapAction::Fail { release_loader, error } => !release_loader
                                && error == BootstrapError::LoaderUnavailable,
                            _ => false,
                        }
                    },
                    (BootstrapPhase::Enumerating, BootstrapEvent::LayersFound(available)) => {
                        match required_extensions(p, d) {
                            None => {
                                &&& final(self).spec_phase() == BootstrapPhase::Failed
                                &&& final(self).spec_validation_missing() == old(self).spec_validation_missing()
                                &&& match r {
                                    BootstrapAction::Fail { release_loader, error } => release_loader
                                        && error == (BootstrapError::UnsupportedPlatform { platform: p }),
                                    _ => false,
                                }
                            },
                            Some(exts) => {
                                &&& final(self).spec_phase() == BootstrapPhase::Creating
                                &&& final(self).spec_validation_missing() == (d && !views(
                                    available@,
                                ).contains(VALIDATION_LAYER_NAME@))
                                &&& match r {
                                    BootstrapAction::CreateContext(req) => {
                                        &&& req.application_name@ == old(self).spec_application_name()
                                        &&& req.engine_name@ == ENGINE_NAME@
                                        &&& req.api_version == api_version_1_0()
                                        &&& views(req.extensions@) == exts
                                        &&& views(req.layers@) == chosen_layers(views(available@), d)
                                    },
                                    _ => false,
                                }
                            },
                        }
                    },
                    (BootstrapPhase::Creating, BootstrapEvent::ContextCreated) => {
                        &&& final(self).spec_phase() == BootstrapPhase::Ready
                        &&& final(self).spec_validation_missing() == old(self).spec_validation_missing()
                        &&& r is Finish
                    },
                    (BootstrapPhase::Creating, BootstrapEvent::ContextFailed(code)) => {
                        &&& final(self).spec_phase() == BootstrapPhase::Failed
                        &&& final(self).spec_validation_missing() == old(self).spec_validation_missing()
                        &&& match r {
                            BootstrapAction::Fail { release_loader, error } => release_loader
                                && error == (BootstrapError::ContextCreationFailed { code }),
                            _ => false,
                        }
                    },
                    _ => {
                        &&& final(self).spec_phase() == old(self).spec_phase()
                        &&& final(self).spec_validation_missing() == old(self).spec_validation_missing()
                        &&& r is Nothing
                    },
                }
            }),
    {
        match (self.phase, event) {
            (BootstrapPhase::LoadingLoader, BootstrapEvent::LoaderBound) => {
                self.phase = BootstrapPhase::Enumerating;
                BootstrapAction::EnumerateLayers
            },
            (BootstrapPhase::LoadingLoader, BootstrapEvent::LoaderUnavailable) => {
                self.phase = BootstrapPhase::Failed;
                BootstrapAction::Fail { release_loader: false, error: BootstrapError::LoaderUnavailable }
            },
            (BootstrapPhase::Enumerating, BootstrapEvent::LayersFound(available)) => {
                match get_required_extensions(self.platform, self.debug) {
                    Err(error) => {
                        self.phase = BootstrapPhase::Failed;
                        BootstrapAction::Fail { release_loader: true, error }
                    },
                    Ok(extensions) => {
                        let (req, missing) = self.request(&available, extensions);
                        self.phase = BootstrapPhase::Creating;
                        self.validation_missing = missing;
                        BootstrapAction::CreateContext(req)
                    },
                }
            },
            (BootstrapPhase::Creating, BootstrapEvent::ContextCreated) => {
                self.phase = BootstrapPhase::Ready;
                BootstrapAction::Finish
            },
            (BootstrapPhase::Creating, BootstrapEvent::ContextFailed(code)) => {
                self.phase = BootstrapPhase::Failed;
                BootstrapAction::Fail {
                    release_loader: true,
                    error: BootstrapError::ContextCreationFailed { code },
                }
            },
            _ => BootstrapAction::Nothing,
        }
    }
}

} // verus!
