//! The notification-area icon: its identifiers, its tooltip, its menu, and
//! what each window message asks of it.
use vstd::prelude::*;
use crate::utf16::{encode_utf16, utf16_encode};

verus! {

/// The message by which the icon reports clicks (`WM_USER + ...`).
pub const WM_USER_TRAYICON: u32 = 0x1772;

/// The menu command that opens the settings.
pub const WM_USER_SHOW_SETTINGS: usize = 0x1773;

/// The menu command that turns listening on or off.
pub const WM_USER_LISTEN: usize = 0x1774;

/// The menu command that ends the program.
pub const WM_USER_EXIT: usize = 0x1775;

/// `WM_DESTROY`
pub const WM_DESTROY: u32 = 0x0002;

/// `WM_COMMAND`
pub const WM_COMMAND: u32 = 0x0111;

/// `NIN_SELECT`
pub const NIN_SELECT: u32 = 1024;

/// `NIN_KEYSELECT`
pub const NIN_KEYSELECT: u32 = 1025;

/// `MF_BYPOSITION`
pub const MF_BYPOSITION: u32 = 0x400;

/// `MF_STRING`
pub const MF_STRING: u32 = 0x0;

/// `MF_CHECKED`
pub const MF_CHECKED: u32 = 0x8;

/// `MF_UNCHECKED`
pub const MF_UNCHECKED: u32 = 0x0;

/// `MF_SEPARATOR`
pub const MF_SEPARATOR: u32 = 0x800;

/// Hands out the identifiers of icons, counting from 1.
pub struct Counter(u32);

impl Counter {
    /// The value that `next` gives next.
    pub closed spec fn value(&self) -> u32 {
        self.0
    }

    /// A counter at 1.
    pub fn new() -> (r: Self)
        ensures
            r.value() == 1,
    {
        Counter(1)
    }

    /// The current value; the counter moves on by one, wrapping around.
    pub fn next(&mut self) -> (r: u32)
        ensures
            r == old(self).value(),
            final(self).value() == (if old(self).value() == u32::MAX {
                0
            } else {
                old(self).value() + 1
            }),
    {
        let r = self.0;
        self.0 = self.0.wrapping_add(1);
        r
    }
}

/// The value a counter that stood at `n` gives after `k` calls of `next`.
pub open spec fn counter_after(n: u32, k: nat) -> u32 {
    ((n + k) % 0x1_0000_0000) as u32
}

/// Successive calls of `next` hand out successive values: one more call
/// moves a counter from `counter_after(n, k)` to `counter_after(n, k + 1)`,
/// and no two of the first 2^32 values are equal.
pub proof fn lemma_counter_ids_distinct(n: u32, i: nat, j: nat)
    requires
        i < j < 0x1_0000_0000,
    ensures
        counter_after(n, i + 1) == (if counter_after(n, i) == u32::MAX {
            0
        } else {
            counter_after(n, i) + 1
        }),
        counter_after(n, i) != counter_after(n, j),
{
    assert(counter_after(n, i) != counter_after(n, j)) by (nonlinear_arith)
        requires
            i < j < 0x1_0000_0000,
            n < 0x1_0000_0000,
    {
    }
    assert(counter_after(n, i + 1) == (if counter_after(n, i) == u32::MAX {
        0
    } else {
        counter_after(n, i) + 1
    })) by (nonlinear_arith)
        requires
            n < 0x1_0000_0000,
    {
    }
}

/// The tooltip while the keyboard hook listens.
pub open spec fn listening_tip() -> Seq<char> {
    seq![
        's', 'i', 'm', 'b', 'o', 'l', 'm', 'u', 'd', 'a', 'h', ' ', '(', 'l', 'i', 's', 't', 'e',
        'n', 'i', 'n', 'g', ')',
    ]
}

/// The tooltip while the keyboard hook does not listen.
pub open spec fn not_listening_tip() -> Seq<char> {
    seq![
        's', 'i', 'm', 'b', 'o', 'l', 'm', 'u', 'd', 'a', 'h', ' ', '(', 'n', 'o', 't', ' ', 'l',
        'i', 's', 't', 'e', 'n', 'i', 'n', 'g', ')',
    ]
}

/// The tooltip of the icon.
pub open spec fn tooltip_text(listening: bool) -> Seq<char> {
    if listening {
        listening_tip()
    } else {
        not_listening_tip()
    }
}

/// The tooltip in the fixed field of the icon's data: its UTF-16 units,
/// cut at 128, then zeros.
pub fn get_tooltip(listening: bool) -> (r: [u16; 128])
    ensures
        forall|j: int|
            0 <= j < 128 ==> r@[j] == (if j < utf16_encode(tooltip_text(listening)).len() {
                utf16_encode(tooltip_text(listening))[j]
            } else {
                0u16
            }),
{
    let chars = if listening {
        vec![
            's', 'i', 'm', 'b', 'o', 'l', 'm', 'u', 'd', 'a', 'h', ' ', '(', 'l', 'i', 's', 't',
            'e', 'n', 'i', 'n', 'g', ')',
        ]
    } else {
        vec![
            's', 'i', 'm', 'b', 'o', 'l', 'm', 'u', 'd', 'a', 'h', ' ', '(', 'n', 'o', 't', ' ',
            'l', 'i', 's', 't', 'e', 'n', 'i', 'n', 'g', ')',
        ]
    };
    assert(chars@ =~= tooltip_text(listening));
    let text = crate::text::chars_to_string(&chars);
    let tip = encode_utf16(text.as_str());
    let n = if tip.len() < 128 {
        tip.len()
    } else {
        128
    };
    let mut sz_tip = [0u16; 128];
    let mut j: usize = 0;
    while j < n
        invariant
            n <= 128,
            n <= tip@.len(),
            n == tip@.len() || n == 128,
            j <= n,
            tip@ == utf16_encode(tooltip_text(listening)),
            forall|m: int|
                0 <= m < 128 ==> sz_tip@[m] == (if m < j {
                    tip@[m]
                } else {
                    0u16
                }),
        decreases n - j,
    {
        sz_tip.set(j, tip[j]);
        j += 1;
    }
    sz_tip
}

/// What a window message asks of the icon.
#[derive(Clone, Copy, Debug, PartialEq, Eq, Structural)]
pub enum NotifyAction {
    /// Show the icon's menu.
    ShowMenu,
    /// End the message loop.
    Quit,
    /// Tell the listeners to open the settings.
    OpenSettings,
    /// Tell the listeners to listen, or to stop listening.
    SetListening(bool),
    /// Tell the listeners to end the program.
    ExitApp,
    /// Nothing beyond the default handling.
    Nothing,
}

/// What the message `msg` with its parameters asks: a selection of the
/// icon shows the menu if there is one; destroying the window quits; the
/// menu commands open the settings, flip listening, or exit.
pub open spec fn notify_message_spec(
    msg: u32,
    w_param: usize,
    l_param: isize,
    menu_listening: Option<bool>,
) -> NotifyAction {
    if msg == WM_USER_TRAYICON {
        let option = (l_param as u16) as u32;
        if (option == NIN_SELECT || option == NIN_KEYSELECT) && menu_listening is Some {
            NotifyAction::ShowMenu
        } else {
            NotifyAction::Nothing
        }
    } else if msg == WM_DESTROY {
        NotifyAction::Quit
    } else if msg == WM_COMMAND {
        let command = (w_param as u16) as usize;
        if command == WM_USER_SHOW_SETTINGS {
            NotifyAction::OpenSettings
        } else if command == WM_USER_LISTEN {
            NotifyAction::SetListening(!menu_listening->0)
        } else if command == WM_USER_EXIT {
            NotifyAction::ExitApp
        } else {
            NotifyAction::Nothing
        }
    } else {
        NotifyAction::Nothing
    }
}

/// What a message to the icon's window asks; see `notify_message_spec`.
/// `menu_listening` is the listening mark of the icon's menu, if it has
/// one. The message goes on to the default handling in any case.
pub fn notify_proc(msg: u32, w_param: usize, l_param: isize, menu_listening: Option<bool>) -> (r:
    NotifyAction)
    requires
        msg == WM_COMMAND && #[verifier::truncate] ((w_param as u16) as usize) == WM_USER_LISTEN
            ==> menu_listening is Some,
    ensures
        r == notify_message_spec(msg, w_param, l_param, menu_listening),
{
    if msg == WM_USER_TRAYICON {
        let option = (#[verifier::truncate] (l_param as u16)) as u32;
        if (option == NIN_SELECT || option == NIN_KEYSELECT) && menu_listening.is_some() {
            NotifyAction::ShowMenu
        } else {
            NotifyAction::Nothing
        }
    } else if msg == WM_DESTROY {
        NotifyAction::Quit
    } else if msg == WM_COMMAND {
        let command = (#[verifier::truncate] (w_param as u16)) as usize;
        if command == WM_USER_SHOW_SETTINGS {
            NotifyAction::OpenSettings
        } else if command == WM_USER_LISTEN {
            match menu_listening {
                Some(l) => NotifyAction::SetListening(!l),
                None => NotifyAction::Nothing,
            }
        } else if command == WM_USER_EXIT {
            NotifyAction::ExitApp
        } else {
            NotifyAction::Nothing
        }
    } else {
        NotifyAction::Nothing
    }
}

/// One entry of the icon's menu: its position, its flags, its command, and
/// its label.
pub struct MenuItem {
    pub position: u32,
    pub flags: u32,
    pub command: usize,
    pub label: String,
}

/// The menu of the icon: "Listen to compose", checked while listening;
/// "Open settings"; a separator; "Exit simbolmudah".
pub fn menu_items(is_listening: bool) -> (r: Vec<MenuItem>)
    ensures
        r@.len() == 4,
        r@[0].position == 0 && r@[0].flags == MF_BYPOSITION | MF_STRING | (if is_listening {
            MF_CHECKED
        } else {
            MF_UNCHECKED
        }) && r@[0].command == WM_USER_LISTEN,
        r@[0].label@ == seq![
            'L', 'i', 's', 't', 'e', 'n', ' ', 't', 'o', ' ', 'c', 'o', 'm', 'p', 'o', 's', 'e',
        ],
        r@[1].position == 1 && r@[1].flags == MF_BYPOSITION | MF_STRING && r@[1].command
            == WM_USER_SHOW_SETTINGS,
        r@[1].label@ == seq!['O', 'p', 'e', 'n', ' ', 's', 'e', 't', 't', 'i', 'n', 'g', 's'],
        r@[2].position == 2 && r@[2].flags == MF_BYPOSITION | MF_SEPARATOR && r@[2].command == 0,
        r@[2].label@ == Seq::<char>::empty(),
        r@[3].position == 3 && r@[3].flags == MF_BYPOSITION | MF_STRING && r@[3].command
            == WM_USER_EXIT,
        r@[3].label@ == seq![
            'E', 'x', 'i', 't', ' ', 's', 'i', 'm', 'b', 'o', 'l', 'm', 'u', 'd', 'a', 'h',
        ],
{
    let listen = vec![
        'L', 'i', 's', 't', 'e', 'n', ' ', 't', 'o', ' ', 'c', 'o', 'm', 'p', 'o', 's', 'e',
    ];
    let settings = vec!['O', 'p', 'e', 'n', ' ', 's', 'e', 't', 't', 'i', 'n', 'g', 's'];
    let exit = vec!['E', 'x', 'i', 't', ' ', 's', 'i', 'm', 'b', 'o', 'l', 'm', 'u', 'd', 'a', 'h'];
    let mut r: Vec<MenuItem> = Vec::new();
    r.push(
        MenuItem {
            position: 0,
            flags: MF_BYPOSITION | MF_STRING | if is_listening {
                MF_CHECKED
            } else {
                MF_UNCHECKED
            },
            command: WM_USER_LISTEN,
            label: crate::text::chars_to_string(&listen),
        },
    );
    r.push(
        MenuItem {
            position: 1,
            flags: MF_BYPOSITION | MF_STRING,
            command: WM_USER_SHOW_SETTINGS,
            label: crate::text::chars_to_string(&settings),
        },
    );
    r.push(
        MenuItem {
            position: 2,
            flags: MF_BYPOSITION | MF_SEPARATOR,
            command: 0,
            label: String::new(),
        },
    );
    r.push(
        MenuItem {
            position: 3,
            flags: MF_BYPOSITION | MF_STRING,
            command: WM_USER_EXIT,
            label: crate::text::chars_to_string(&exit),
        },
    );
    assert(listen@ =~= seq![
        'L', 'i', 's', 't', 'e', 'n', ' ', 't', 'o', ' ', 'c', 'o', 'm', 'p', 'o', 's', 'e',
    ]);
    assert(settings@ =~= seq!['O', 'p', 'e', 'n', ' ', 's', 'e', 't', 't', 'i', 'n', 'g', 's']);
    assert(exit@ =~= seq![
        'E', 'x', 'i', 't', ' ', 's', 'i', 'm', 'b', 'o', 'l', 'm', 'u', 'd', 'a', 'h',
    ]);
    r
}

} // verus!
