//! Keys of the interface texts that the viewer translates.

use vstd::prelude::*;

verus! {

/// One translatable text of the interface.
#[derive(Debug, Clone, Copy, PartialEq, Eq, Structural)]
pub enum TextKey {
    /// Title of the main window.
    WindowTitle,
    /// Title of the main window while a model is loading.
    WindowLoadingTitle,
    /// Name of the "follow the system language" choice.
    SystemDefault,
    /// Title of the about dialog.
    About,
}

} // verus!
