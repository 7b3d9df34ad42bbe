//! The component props: the data each UI component is invoked with.  Each
//! props instance is created once per component invocation and consumed by
//! the composition pipeline; the markup fragments around it carry no
//! engine logic and live with the rendering collaborator.

use vstd::prelude::*;
use vstd::string::*;

use crate::attrs::Attrs;
use crate::schema::VocabFields;

verus! {

/// Props of a card.
pub struct CardProps {
    pub children: String,
    pub padded: bool,
    pub class: String,
}

/// Props of a card's content area.
pub struct CardContentProps {
    pub children: String,
    pub padded: bool,
}

/// Props of a card's footer.
pub struct CardFooterProps {
    pub children: String,
}

/// Props of a text input.
pub struct TextInputProps {
    pub input_type: String,
    pub error: Option<String>,
    pub vocab_fields: VocabFields,
    pub attrs: Attrs,
}

/// Props of a form label.
pub struct LabelProps {
    pub for_input: String,
    pub children: String,
    pub error: bool,
    pub vocab_fields: VocabFields,
    pub attrs: Attrs,
}

/// Props of a select control.
pub struct SelectProps {
    pub children: String,
    pub error: Option<String>,
    pub vocab_fields: VocabFields,
    pub attrs: Attrs,
}

/// Props of one option of a select control.
pub struct SelectOptionProps {
    pub label: String,
    pub selected: bool,
    pub children: String,
    pub vocab_fields: VocabFields,
    pub attrs: Attrs,
}

/// Props of a form button.
pub struct ButtonProps {
    pub kind: String,
    pub children: String,
    pub vocab_fields: VocabFields,
    pub attrs: Attrs,
}

/// Props of a file-upload input.
pub struct FileInputProps {
    pub id: String,
    pub name: String,
    pub file_hint_message: String,
    pub accept: String,
    pub multiple: bool,
}

/// Props of a form grid layout.
pub struct GridLayoutProps {
    pub children: String,
    pub vocab_fields: VocabFields,
    pub attrs: Attrs,
}

/// How many columns a grid cell spans.
#[derive(Clone)]
pub enum CellSpan {
    Size(usize),
    Full,
}

/// Props of one grid cell.
pub struct GridCellProps {
    pub children: String,
    pub span: CellSpan,
    pub start: usize,
    pub vocab_fields: VocabFields,
    pub attrs: Attrs,
}

/// Props of a secondary header.
pub struct SecondaryHeaderProps {
    pub title: String,
    pub subtitle: String,
    pub children: String,
    pub tag: String,
    pub vocab_fields: VocabFields,
    pub attrs: Attrs,
}

/// Props of the page layout.
pub struct HtmlLayoutProps {
    pub head_title: String,
    pub head_links: String,
    pub head_scripts: String,
    pub children: String,
}

/// The icon a notification shows.
pub enum IconSvg {
    Success,
    Error,
    Info,
    Custom(String),
}

/// Props of a simple notification.
pub struct SimpleNotificationProps {
    pub title: String,
    pub message: String,
    pub icon_svg: IconSvg,
}

/// Which client-side notification call a presenter emits.
pub enum NotificationCall {
    Success(String),
    Error(String),
    Info(String, String),
    Template,
    TemplateSelector(String),
}

/// Props of a notification presenter.
pub struct NotificationPresenterProps {
    pub call: NotificationCall,
    pub children: String,
}

/// Props of a notification transition wrapper.
pub struct NotificationTransitionProps {
    pub class: String,
    pub children: String,
}

/// Props of a page-header toolbar.
pub struct PageHeaderToolbarProps {
    pub title: String,
    pub buttons: String,
    pub vocab_fields: VocabFields,
    pub attrs: Attrs,
}

/// Props of a show/hide transition wrapper.
pub struct TransitionProps {
    pub enter: String,
    pub enter_from: String,
    pub enter_to: String,
    pub leave: String,
    pub leave_from: String,
    pub leave_to: String,
    pub children: String,
    pub tag: String,
    pub vocab_fields: VocabFields,
    pub attrs: Attrs,
}

/// The size of a button.
#[derive(Clone)]
pub enum ButtonSize {
    Xs,
    Sm,
    Md,
    Lg,
    Xl,
}

/// Props of a primary button.
pub struct PrimaryButtonProps {
    pub children: String,
    pub size: ButtonSize,
    pub tag: String,
    pub href: String,
    pub vocab_fields: VocabFields,
    pub attrs: Attrs,
}

/// Props of a secondary button.
pub struct SecondaryButtonProps {
    pub children: String,
    pub size: ButtonSize,
    pub tag: String,
    pub href: String,
    pub vocab_fields: VocabFields,
    pub attrs: Attrs,
}

/// Props of a flyout panel.
pub struct FlyoutProps {
    pub title: String,
    pub children: String,
}

/// The size of a modal.
pub enum ModalSize {
    Small,
    Medium,
    Large,
    SmallScreen,
    MediumScreen,
    Custom(String),
}

/// Props of a modal.
pub struct ModalProps {
    pub size: ModalSize,
    pub children: String,
}

/// Where client-side code mounts pre-rendered modals.
pub fn modal_target() -> (r: String)
    ensures
        r@ == "#modal-live-region"@,
{
    String::from_str("#modal-live-region")
}

/// The size of a popup menu.
pub enum MenuSize {
    Small,
    Medium,
}

/// One link of a menu.
pub struct MenuLink {
    pub label: String,
    pub sr_suffix: String,
    pub attrs: Attrs,
}

/// Props of a popup menu.
pub struct PopupMenuProps {
    pub id: String,
    pub class: String,
    pub button_class: String,
    pub button_content: String,
    pub size: MenuSize,
    pub children: String,
}

/// Props of one menu item.
pub struct MenuItemProps {
    pub title: String,
    pub sr_suffix: String,
    pub vocab_fields: VocabFields,
    pub attrs: Attrs,
}

/// Props of a menu.
pub struct MenuProps {
    pub id: String,
    pub links: Vec<MenuLink>,
}

/// One column heading of a table: a visible title, or an empty heading
/// with screen-reader text.
pub enum TableHeading {
    Title(String),
    Empty(String),
}

impl TableHeading {
    /// A visible column title.
    pub fn title(title: String) -> (r: TableHeading)
        ensures
            r == TableHeading::Title(title),
    {
        TableHeading::Title(title)
    }

    /// An empty heading carrying only screen-reader text.
    pub fn empty(sr_only_text: String) -> (r: TableHeading)
        ensures
            r == TableHeading::Empty(sr_only_text),
    {
        TableHeading::Empty(sr_only_text)
    }
}

/// Props of a table.
pub struct TableProps {
    pub headings: Vec<TableHeading>,
    pub body: Vec<String>,
}

/// Which position a table cell renders in.
pub enum TDVariant {
    Default,
    First,
    Last,
    LastNonEmptyHeading,
}

/// Props of one table cell.
pub struct TableDataProps {
    pub children: String,
    pub variant: TDVariant,
}

/// Props of an action link in a table row.
pub struct ActionLinkProps {
    pub children: String,
    pub sr_text: String,
    pub vocab_fields: VocabFields,
    pub attrs: Attrs,
}

/// The confirmation text of a destructive action.
#[derive(Clone)]
pub struct Confirm {
    pub title: String,
    pub message: String,
}

/// Props of a delete action link.
pub struct DeleteActionLinkProps {
    pub children: String,
    pub confirm: Confirm,
    pub sr_text: String,
    pub show_loader_on_delete: bool,
    pub vocab_fields: VocabFields,
    pub attrs: Attrs,
}

/// Props of a client-side control wrapper.
pub struct YcControlProps {
    pub control: String,
    pub children: String,
    pub vocab_fields: VocabFields,
    pub attrs: Attrs,
}

/// Props of a toggle control.
pub struct ToggleProps {
    pub children: String,
    pub vocab_fields: VocabFields,
    pub attrs: Attrs,
}

/// Props of a raw client-side API call.
pub struct YcControlJsApiProps {
    pub call: String,
}

} // verus!
