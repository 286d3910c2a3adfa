//! The platform window that a graphics context is created against.
use crate::vulkan::Platform;
use vstd::prelude::*;

verus! {

/// Attributes a window is created with.
pub struct BaseWindowAttr {
    pub title: String,
    /// Logical height.
    pub height: u32,
    /// Logical width.
    pub width: u32,
    pub fullscreen: bool,
}

/// Owns the platform window of type `H` once the host has created it.
pub struct GameWindow<H> {
    window: Option<H>,
    platform: Platform,
    base_attr: BaseWindowAttr,
    resize_pending: bool,
}

impl<H> GameWindow<H> {
    pub closed spec fn spec_window(&self) -> Option<H> {
        self.window
    }

    pub closed spec fn spec_platform(&self) -> Platform {
        self.platform
    }

    pub closed spec fn spec_size(&self) -> (u32, u32) {
        (self.base_attr.width, self.base_attr.height)
    }

    pub closed spec fn spec_title(&self) -> Seq<char> {
        self.base_attr.title@
    }

    pub closed spec fn spec_fullscreen(&self) -> bool {
        self.base_attr.fullscreen
    }

    pub closed spec fn spec_resize_pending(&self) -> bool {
        self.resize_pending
    }

    pub open spec fn spec_ready(&self) -> bool {
        self.spec_window() is Some
    }

    /// A host with no window yet.
    pub fn new(attr: BaseWindowAttr) -> (r: GameWindow<H>)
        ensures
            !r.spec_ready(),
            r.spec_size() == (attr.width, attr.height),
            r.spec_title() == attr.title@,
            r.spec_fullscreen() == attr.fullscreen,
            !r.spec_resize_pending(),
    {
        GameWindow { window: None, platform: Platform::Other, base_attr: attr, resize_pending: false }
    }

    /// Whether the window exists.
    pub fn is_ready(&self) -> (r: bool)
        ensures
            r == self.spec_ready(),
    {
        self.window.is_some()
    }

    /// Takes the window the host created on its activation signal. Once a
    /// window is held, a later one is refused and handed back.
    pub fn init(&mut self, window: H, platform: Platform) -> (r: Option<H>)
        ensures
            !old(self).spec_ready() ==> r is None && final(self).spec_window() == Some(window)
                && final(self).spec_platform() == platform,
            old(self).spec_ready() ==> r == Some(window) && final(self).spec_window()
                == old(self).spec_window() && final(self).spec_platform() == old(self).spec_platform(),
            final(self).spec_size() == old(self).spec_size(),
            final(self).spec_title() == old(self).spec_title(),
            final(self).spec_fullscreen() == old(self).spec_fullscreen(),
            final(self).spec_resize_pending() == old(self).spec_resize_pending(),
    {
        if self.window.is_some() {
            Some(window)
        } else {
            self.window = Some(window);
            self.platform = platform;
            None
        }
    }

    /// The window, only while it exists.
    pub fn window(&self) -> (r: Option<&H>)
        ensures
            r is Some == self.spec_ready(),
            r is Some ==> *r.unwrap() == self.spec_window().unwrap(),
    {
        self.window.as_ref()
    }

    /// Window system of the window, only while it exists.
    pub fn platform(&self) -> (r: Option<Platform>)
        ensures
            r is Some == self.spec_ready(),
            r is Some ==> r.unwrap() == self.spec_platform(),
    {
        if self.window.is_some() {
            Some(self.platform)
        } else {
            None
        }
    }

    /// Records a new logical size and raises the resize notification.
    pub fn on_resize(&mut self, width: u32, height: u32)
        ensures
            final(self).spec_size() == (width, height),
            final(self).spec_resize_pending(),
            final(self).spec_window() == old(self).spec_window(),
            final(self).spec_platform() == old(self).spec_platform(),
            final(self).spec_title() == old(self).spec_title(),
            final(self).spec_fullscreen() == old(self).spec_fullscreen(),
    {
        self.base_attr.width = width;
        self.base_attr.height = height;
        self.resize_pending = true;
    }

    /// Takes the resize notification: the current size if one was raised.
    pub fn take_resize(&mut self) -> (r: Option<(u32, u32)>)
        ensures
            old(self).spec_resize_pending() ==> r == Some(old(self).spec_size()),
            !old(self).spec_resize_pending() ==> r is None,
            !final(self).spec_resize_pending(),
            final(self).spec_size() == old(self).spec_size(),
            final(self).spec_window() == old(self).spec_window(),
            final(self).spec_platform() == old(self).spec_platform(),
            final(self).spec_title() == old(self).spec_title(),
            final(self).spec_fullscreen() == old(self).spec_fullscreen(),
    {
        if self.resize_pending {
            self.resize_pending = false;
            Some((self.base_attr.width, self.base_attr.height))
        } else {
            None
        }
    }

    /// Logical size as (width, height).
    pub fn size(&self) -> (r: (u32, u32))
        ensures
            r == self.spec_size(),
    {
        (self.base_attr.width, self.base_attr.height)
    }

    /// The attributes the window is created with.
    pub fn attributes(&self) -> (r: &BaseWindowAttr)
        ensures
            r.title@ == self.spec_title(),
            (r.width, r.height) == self.spec_size(),
            r.fullscreen == self.spec_fullscreen(),
    {
        &self.base_attr
    }

    /// Marks the window gone before handing it back for release.
    pub fn destroy(&mut self) -> (r: Option<H>)
        ensures
            r == old(self).spec_window(),
            !final(self).spec_ready(),
            final(self).spec_size() == old(self).spec_size(),
            final(self).spec_title() == old(self).spec_title(),
            final(self).spec_fullscreen() == old(self).spec_fullscreen(),
            final(self).spec_resize_pending() == old(self).spec_resize_pending(),
    {
        self.window.take()
    }
}

} // verus!
