//! Typed roles: shorthand for the element names that selectors test for.
use crate::atspi;
use vstd::prelude::*;

verus! {

/// A common GTK4 or libadwaita accessibility role. Each named variant is called as
/// the tag it stands for; `Other` holds any other tag.
#[derive(Debug, Clone, PartialEq, Eq)]
pub enum Role {
    Button,
    ToggleButton,
    CheckBox,
    Radio,
    Switch,
    ComboBox,
    TextBox,
    SpinButton,
    Slider,
    ScrollBar,
    ProgressBar,
    Meter,
    Label,
    Link,
    Image,
    List,
    ListItem,
    Separator,
    Tab,
    TabList,
    TabPanel,
    MenuItem,
    Dialog,
    Window,
    /// The element name of a role not named above, used as it is.
    Other(String),
}

impl Role {
    /// The reference tag of the role.
    pub open spec fn tag(self) -> Seq<char> {
        match self {
            Role::Button => "Button"@,
            Role::ToggleButton => "ToggleButton"@,
            Role::CheckBox => "CheckBox"@,
            Role::Radio => "Radio"@,
            Role::Switch => "Switch"@,
            Role::ComboBox => "ComboBox"@,
            Role::TextBox => "TextBox"@,
            Role::SpinButton => "SpinButton"@,
            Role::Slider => "Slider"@,
            Role::ScrollBar => "ScrollBar"@,
            Role::ProgressBar => "ProgressBar"@,
            Role::Meter => "Meter"@,
            Role::Label => "Label"@,
            Role::Link => "Link"@,
            Role::Image => "Image"@,
            Role::List => "List"@,
            Role::ListItem => "ListItem"@,
            Role::Separator => "Separator"@,
            Role::Tab => "Tab"@,
            Role::TabList => "TabList"@,
            Role::TabPanel => "TabPanel"@,
            Role::MenuItem => "MenuItem"@,
            Role::Dialog => "Dialog"@,
            Role::Window => "Window"@,
            Role::Other(s) => s@,
        }
    }

    /// Every tag the role can appear under: the reference tag first, then the
    /// spellings of the accessibility cache where they differ.
    pub open spec fn tags(self) -> Seq<Seq<char>> {
        match self {
            Role::CheckBox => seq!["CheckBox"@, "Checkbox"@],
            Role::TextBox => seq!["TextBox"@, "Text"@, "Entry"@],
            Role::Radio => seq!["Radio"@, "RadioButton"@],
            Role::Meter => seq!["Meter"@, "LevelBar"@],
            Role::Tab => seq!["Tab"@, "PageTab"@],
            Role::TabList => seq!["TabList"@, "PageTabList"@],
            Role::Window => seq!["Window"@, "Frame"@],
            _ => seq![self.tag()],
        }
    }

    /// The tag this role is tested for in a selector, such as `"Button"`.
    pub fn element_name(&self) -> (r: &str)
        ensures
            r@ == self.tag(),
    {
        match self {
            Role::Button => "Button",
            Role::ToggleButton => "ToggleButton",
            Role::CheckBox => "CheckBox",
            Role::Radio => "Radio",
            Role::Switch => "Switch",
            Role::ComboBox => "ComboBox",
            Role::TextBox => "TextBox",
            Role::SpinButton => "SpinButton",
            Role::Slider => "Slider",
            Role::ScrollBar => "ScrollBar",
            Role::ProgressBar => "ProgressBar",
            Role::Meter => "Meter",
            Role::Label => "Label",
            Role::Link => "Link",
            Role::Image => "Image",
            Role::List => "List",
            Role::ListItem => "ListItem",
            Role::Separator => "Separator",
            Role::Tab => "Tab",
            Role::TabList => "TabList",
            Role::TabPanel => "TabPanel",
            Role::MenuItem => "MenuItem",
            Role::Dialog => "Dialog",
            Role::Window => "Window",
            Role::Other(s) => s.as_str(),
        }
    }

    /// Every tag this role can appear under, the reference tag first.
    pub fn element_names(&self) -> (r: Vec<&str>)
        ensures
            r@.map_values(|s: &str| s@) == self.tags(),
    {
        let names = match self {
            Role::CheckBox => vec!["CheckBox", "Checkbox"],
            Role::TextBox => vec!["TextBox", "Text", "Entry"],
            Role::Radio => vec!["Radio", "RadioButton"],
            Role::Meter => vec!["Meter", "LevelBar"],
            Role::Tab => vec!["Tab", "PageTab"],
            Role::TabList => vec!["TabList", "PageTabList"],
            Role::Window => vec!["Window", "Frame"],
            _ => vec![self.element_name()],
        };
        assert(names@.map_values(|s: &str| s@) =~= self.tags());
        names
    }
}

/// The first of a role's tags is its reference tag.
pub proof fn law_reference_tag_first(role: Role)
    ensures
        role.tags().len() >= 1,
        role.tags()[0] == role.tag(),
{
}

/// The reference tag of every named role can name an XML element.
pub proof fn law_named_role_is_element_name(role: Role)
    requires
        !(role is Other),
    ensures
        atspi::tag_shaped(role.tag()),
{
    reveal_strlit("Button");
    reveal_strlit("ToggleButton");
    reveal_strlit("CheckBox");
    reveal_strlit("Radio");
    reveal_strlit("Switch");
    reveal_strlit("ComboBox");
    reveal_strlit("TextBox");
    reveal_strlit("SpinButton");
    reveal_strlit("Slider");
    reveal_strlit("ScrollBar");
    reveal_strlit("ProgressBar");
    reveal_strlit("Meter");
    reveal_strlit("Label");
    reveal_strlit("Link");
    reveal_strlit("Image");
    reveal_strlit("List");
    reveal_strlit("ListItem");
    reveal_strlit("Separator");
    reveal_strlit("Tab");
    reveal_strlit("TabList");
    reveal_strlit("TabPanel");
    reveal_strlit("MenuItem");
    reveal_strlit("Dialog");
    reveal_strlit("Window");
}

/// A role goes by the tag it is called as, and one of another tag by that tag alone; the
/// cache's spellings of a role are accepted behind its own.
pub proof fn law_role_spellings(role: Role)
    ensures
        match role {
            Role::Button => role.tags() == seq!["Button"@],
            Role::ToggleButton => role.tags() == seq!["ToggleButton"@],
            Role::CheckBox => role.tags() == seq!["CheckBox"@, "Checkbox"@],
            Role::Radio => role.tags() == seq!["Radio"@, "RadioButton"@],
            Role::Switch => role.tags() == seq!["Switch"@],
            Role::ComboBox => role.tags() == seq!["ComboBox"@],
            Role::TextBox => role.tags() == seq!["TextBox"@, "Text"@, "Entry"@],
            Role::SpinButton => role.tags() == seq!["SpinButton"@],
            Role::Slider => role.tags() == seq!["Slider"@],
            Role::ScrollBar => role.tags() == seq!["ScrollBar"@],
            Role::ProgressBar => role.tags() == seq!["ProgressBar"@],
            Role::Meter => role.tags() == seq!["Meter"@, "LevelBar"@],
            Role::Label => role.tags() == seq!["Label"@],
            Role::Link => role.tags() == seq!["Link"@],
            Role::Image => role.tags() == seq!["Image"@],
            Role::List => role.tags() == seq!["List"@],
            Role::ListItem => role.tags() == seq!["ListItem"@],
            Role::Separator => role.tags() == seq!["Separator"@],
            Role::Tab => role.tags() == seq!["Tab"@, "PageTab"@],
            Role::TabList => role.tags() == seq!["TabList"@, "PageTabList"@],
            Role::TabPanel => role.tags() == seq!["TabPanel"@],
            Role::MenuItem => role.tags() == seq!["MenuItem"@],
            Role::Dialog => role.tags() == seq!["Dialog"@],
            Role::Window => role.tags() == seq!["Window"@, "Frame"@],
            Role::Other(tag) => role.tags() == seq![tag@],
        },
{
}

} // verus!
