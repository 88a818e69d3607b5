//! The detection catalog: game definitions with the executables that
//! identify them, fetched from the backing service and cached on disk by the
//! surrounding application.

use vstd::prelude::*;

verus! {

/// One executable that identifies a game: a file name that must close the
/// window's executable path and, optionally, a substring that must occur in
/// the window's command line.
#[derive(Debug, Clone)]
pub struct Executable {
    pub is_launcher: bool,
    pub name: String,
    pub os: String,
    pub arguments: Option<String>,
}

/// The mathematical value of an [`Executable`].
pub struct ExecutableView {
    pub is_launcher: bool,
    pub name: Seq<char>,
    pub os: Seq<char>,
    pub arguments: Option<Seq<char>>,
}

impl View for Executable {
    type V = ExecutableView;

    open spec fn view(&self) -> ExecutableView {
        ExecutableView {
            is_launcher: self.is_launcher,
            name: self.name@,
            os: self.os@,
            arguments: match self.arguments {
                Some(a) => Some(a@),
                None => None,
            },
        }
    }
}

/// One catalog entry: a game with its identifying executables and metadata.
#[derive(Debug, Clone)]
pub struct Root2 {
    pub executables: Vec<Executable>,
    pub hook: bool,
    pub id: String,
    pub name: String,
    pub aliases: Vec<String>,
    pub overlay: Option<bool>,
    pub overlay_compatibility_hook: Option<bool>,
    pub overlay_methods: Option<i64>,
}

/// The mathematical value of a [`Root2`] catalog entry.
pub struct Root2View {
    pub executables: Seq<ExecutableView>,
    pub hook: bool,
    pub id: Seq<char>,
    pub name: Seq<char>,
    pub aliases: Seq<Seq<char>>,
    pub overlay: Option<bool>,
    pub overlay_compatibility_hook: Option<bool>,
    pub overlay_methods: Option<i64>,
}

impl View for Root2 {
    type V = Root2View;

    open spec fn view(&self) -> Root2View {
        Root2View {
            executables: self.executables@.map_values(|e: Executable| e@),
            hook: self.hook,
            id: self.id@,
            name: self.name@,
            aliases: self.aliases@.map_values(|a: String| a@),
            overlay: self.overlay,
            overlay_compatibility_hook: self.overlay_compatibility_hook,
            overlay_methods: self.overlay_methods,
        }
    }
}

/// The mathematical value of a whole catalog.
pub open spec fn catalog_view(c: Seq<Root2>) -> Seq<Root2View> {
    c.map_values(|g: Root2| g@)
}

} // verus!
