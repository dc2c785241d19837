use vstd::prelude::*;

verus! {

/// The visual theme the layout system hands to widgets. Style resolution
/// itself lives with the rendering layer; the core only carries the theme
/// selection around.
#[derive(Debug, Default, Clone, Copy, PartialEq, Eq, Structural)]
pub struct Theme {
}

/// Loads the theme the toolkit starts with.
#[derive(Debug, Default, Clone, Copy, PartialEq, Eq, Structural)]
pub struct ThemeSystem {
}

impl ThemeSystem {
    pub fn load_theme() -> (t: Theme)
        ensures
            t == (Theme {  }),
    {
        ThemeSystem::default_theme()
    }

    fn default_theme() -> (t: Theme)
        ensures
            t == (Theme {  }),
    {
        Theme {  }
    }
}

/// Owns the theme currently in force.
#[derive(Debug, Default, Clone, Copy, PartialEq, Eq, Structural)]
pub struct LayoutSystem {
    theme: Theme,
}

impl LayoutSystem {
    pub closed spec fn spec_theme(&self) -> Theme {
        self.theme
    }

    pub fn new() -> (l: LayoutSystem)
        ensures
            l.spec_theme() == (Theme {  }),
    {
        LayoutSystem { theme: Theme {  } }
    }

    /// Replaces the current theme with the loaded one.
    pub fn initialize(&mut self)
        ensures
            final(self).spec_theme() == (Theme {  }),
    {
        self.theme = ThemeSystem::load_theme();
    }

    pub fn set_theme(&mut self, theme: Theme)
        ensures
            final(self).spec_theme() == theme,
    {
        self.theme = theme;
    }

    pub fn get_theme(&self) -> (t: &Theme)
        ensures
            *t == self.spec_theme(),
    {
        &self.theme
    }
}

} // verus!
