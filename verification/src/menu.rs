//! The menu bar and drop-down menu navigation state machine: wraparound
//! selection, separator skipping, shortcut mnemonics marked by an underscore
//! in each label, screen origins, and the rendering of both widgets as ANSI
//! code streams.

use vstd::prelude::*;
use vstd::arithmetic::div_mod::lemma_small_mod;
use vstd::arithmetic::div_mod::lemma_mod_multiples_vanish;
use vstd::arithmetic::div_mod::lemma_mod_self_0;
use vstd::string::StrSliceExecFns;

use crate::ansi;
use crate::render::Color;
use crate::ansi::lower_char;

verus! {

/// One keyboard event, as the menu machinery distinguishes them.  Enter
/// arrives as the newline character.
#[derive(Debug, Copy, Clone, PartialEq, Eq, Structural)]
pub enum Key {
    Up,
    Down,
    Left,
    Right,
    Char(char),
    Other,
}

/// The closed set of application-level commands a menu item can trigger.
#[derive(Debug, Copy, Clone, PartialEq, Eq, Structural)]
pub enum Action {
    Close,
    New,
    Save,
    SaveAs,
    Open,
    About,
    Scripted,
}

/// A menu entry is exactly one of: a horizontal rule, an action, or a nested
/// sub-menu.
pub enum MenuAction {
    Separator,
    Action(Action),
    SubMenu(Menu),
}

/// A vertical list of (label, entry) pairs with shortcut-letter and
/// arrow-key navigation.
pub struct Menu {
    pub children: Vec<(String, MenuAction)>,
}

/// A horizontal list of top-level menus plus a selection cursor.
pub struct MenuBar {
    pub selection_index: usize,
    pub menus: Vec<(String, Menu)>,
}

/// Whether the label contains a shortcut marker at all.
pub open spec fn has_marker(s: Seq<char>) -> bool {
    exists|i: int| 0 <= i < s.len() && s[i] == '_'
}

/// Every shortcut marker in the label is followed by a character.
pub open spec fn markers_ok(s: Seq<char>) -> bool {
    forall|i: int| 0 <= i < s.len() && s[i] == '_' ==> i + 1 < s.len()
}

/// The number of columns a label occupies on screen: its character count,
/// less one for the shortcut marker, which is not drawn.
pub open spec fn display_len(s: Seq<char>) -> nat {
    if has_marker(s) {
        (s.len() - 1) as nat
    } else {
        s.len()
    }
}

/// The shortcut mnemonic of a label: the character following the first
/// underscore, if there is one.
pub open spec fn spec_shortcut(s: Seq<char>) -> Option<char>
    decreases s.len(),
{
    if s.len() == 0 {
        None
    } else if s[0] == '_' {
        if s.len() >= 2 {
            Some(s[1])
        } else {
            None
        }
    } else {
        spec_shortcut(s.drop_first())
    }
}

/// The shortcut mnemonic of a menu label: the character following the first
/// underscore, or nothing when the label has no underscore or the underscore
/// is its last character.
pub fn get_menu_shortcut_from_name(name: &str) -> (r: Option<char>)
    ensures
        r == spec_shortcut(name@),
{
    let n = name.unicode_len();
    let mut i: usize = 0;
    proof {
        assert(name@.skip(0) =~= name@);
    }
    while i < n
        invariant
            i <= n,
            n == name@.len(),
            spec_shortcut(name@) == spec_shortcut(name@.skip(i as int)),
        decreases n - i,
    {
        let c = name.get_char(i);
        proof {
            assert(name@.skip(i as int)[0] == name@[i as int]);
        }
        if c == '_' {
            if i + 1 < n {
                return Some(name.get_char(i + 1));
            } else {
                proof {
                    assert(name@.skip(i as int).len() == 1);
                }
                return None;
            }
        }
        proof {
            assert(name@.skip(i as int).drop_first() =~= name@.skip(i as int + 1));
        }
        i += 1;
    }
    proof {
        assert(name@.skip(n as int).len() == 0);
    }
    None
}

/// Whether the label holds an underscore anywhere.
pub fn label_has_marker(name: &str) -> (r: bool)
    ensures
        r == has_marker(name@),
{
    let n = name.unicode_len();
    let mut i: usize = 0;
    while i < n
        invariant
            i <= n,
            n == name@.len(),
            forall|j: int| 0 <= j < i ==> name@[j] != '_',
        decreases n - i,
    {
        if name.get_char(i) == '_' {
            return true;
        }
        i += 1;
    }
    false
}

/// The number of columns the label occupies on screen.
pub fn label_display_len(name: &str) -> (r: usize)
    ensures
        r == display_len(name@),
{
    let n = name.unicode_len();
    if label_has_marker(name) {
        proof {
            assert(name@.len() >= 1);
        }
        n - 1
    } else {
        n
    }
}

impl Menu {
    /// A usable menu: non-empty, at least one entry the cursor can rest on,
    /// labels small enough for screen arithmetic, every marker followed by a
    /// character, and every non-separator entry carrying a shortcut.
    pub open spec fn wf(self) -> bool {
        let cs = self.children@;
        &&& 1 <= cs.len() <= 0xFFFF
        &&& exists|i: int| 0 <= i < cs.len() && !((#[trigger] cs[i].1) is Separator)
        &&& forall|i: int| 0 <= i < cs.len() ==> (#[trigger] cs[i].0)@.len() <= 0xFFFF
        &&& forall|i: int| 0 <= i < cs.len() ==> markers_ok((#[trigger] cs[i].0)@)
        &&& forall|i: int|
            0 <= i < cs.len() && !((#[trigger] cs[i].1) is Separator) ==> spec_shortcut(
                cs[i].0@,
            ) is Some
    }

    /// Runtime check of `wf`, so that a host can reject a malformed menu
    /// definition at construction time instead of faulting later.
    pub fn is_well_formed(&self) -> (r: bool)
        ensures
            r == self.wf(),
    {
        let len = self.children.len();
        if len == 0 || len > 0xFFFF {
            return false;
        }
        let mut seen_selectable = false;
        let mut i: usize = 0;
        while i < len
            invariant
                i <= len,
                len == self.children@.len(),
                seen_selectable == exists|j: int|
                    0 <= j < i && !((#[trigger] self.children@[j].1) is Separator),
                forall|j: int| 0 <= j < i ==> (#[trigger] self.children@[j].0)@.len() <= 0xFFFF,
                forall|j: int| 0 <= j < i ==> markers_ok((#[trigger] self.children@[j].0)@),
                forall|j: int|
                    0 <= j < i && !((#[trigger] self.children@[j].1) is Separator)
                        ==> spec_shortcut(self.children@[j].0@) is Some,
            decreases len - i,
        {
            let (name, entry) = &self.children[i];
            if name.as_str().unicode_len() > 0xFFFF {
                return false;
            }
            if !label_markers_ok(name.as_str()) {
                return false;
            }
            let is_sep = match entry {
                MenuAction::Separator => true,
                _ => false,
            };
            if !is_sep {
                if get_menu_shortcut_from_name(name.as_str()).is_none() {
                    return false;
                }
                seen_selectable = true;
            }
            i += 1;
        }
        seen_selectable
    }
}

/// `r` is the index reached from `sel` by stepping forward one entry
/// (wrapping at the end) and then past any run of separators, landing on the
/// first entry the cursor can rest on.
pub open spec fn is_next_selection(cs: Seq<(String, MenuAction)>, sel: int, r: int) -> bool {
    exists|k: int|
        1 <= k <= cs.len() && r == (sel + k) % (cs.len() as int) && !((#[trigger] cs[(sel + k) % (
        cs.len() as int)].1) is Separator) && (forall|j: int|
            1 <= j < k ==> (#[trigger] cs[(sel + j) % (cs.len() as int)].1) is Separator)
}

/// `r` is the index reached from `sel` by stepping backward one entry
/// (wrapping at the start) and then past any run of separators.
pub open spec fn is_prev_selection(cs: Seq<(String, MenuAction)>, sel: int, r: int) -> bool {
    exists|k: int|
        1 <= k <= cs.len() && r == (sel + cs.len() - k) % (cs.len() as int) && !((#[trigger] cs[(
        sel + cs.len() - k) % (cs.len() as int)].1) is Separator) && (forall|j: int|
            1 <= j < k ==> (#[trigger] cs[(sel + cs.len() - j) % (cs.len() as int)].1)
                is Separator)
}

/// The entry at `i` is a non-separator whose shortcut mnemonic matches the
/// pressed key, case-insensitively.
pub open spec fn child_matches(cs: Seq<(String, MenuAction)>, i: int, key: char) -> bool {
    &&& !(cs[i].1 is Separator)
    &&& spec_shortcut(cs[i].0@) matches Some(c) && lower_char(c) == lower_char(key)
}

/// The largest display length among the first `n` labels.
pub open spec fn max_display_len(cs: Seq<(String, MenuAction)>, n: int) -> nat
    decreases n,
{
    if n <= 0 {
        0
    } else if display_len(cs[n - 1].0@) > max_display_len(cs, n - 1) {
        display_len(cs[n - 1].0@)
    } else {
        max_display_len(cs, n - 1)
    }
}

impl Menu {
    /// The selection one step down: the next non-separator entry, wrapping.
    pub fn next(&self, selection_index: usize) -> (r: usize)
        requires
            self.wf(),
            selection_index < self.children@.len(),
        ensures
            r < self.children@.len(),
            !(self.children@[r as int].1 is Separator),
            is_next_selection(self.children@, selection_index as int, r as int),
    {
        let len = self.children.len();
        let mut k: usize = 1;
        while k <= len
            invariant
                self.wf(),
                selection_index < len,
                len == self.children@.len(),
                1 <= k <= len + 1,
                forall|j: int|
                    1 <= j < k ==> (#[trigger] self.children@[(selection_index + j) % (
                    len as int)].1) is Separator,
            decreases len + 1 - k,
        {
            let idx = (selection_index + k) % len;
            let is_sep = match &self.children[idx].1 {
                MenuAction::Separator => true,
                _ => false,
            };
            if !is_sep {
                return idx;
            }
            k += 1;
        }
        proof {
            lemma_step_reaches(self.children@, selection_index as int);
        }
        selection_index
    }

    /// The selection one step up: the previous non-separator entry, wrapping.
    pub fn previous(&self, selection_index: usize) -> (r: usize)
        requires
            self.wf(),
            selection_index < self.children@.len(),
        ensures
            r < self.children@.len(),
            !(self.children@[r as int].1 is Separator),
            is_prev_selection(self.children@, selection_index as int, r as int),
    {
        let len = self.children.len();
        let mut k: usize = 1;
        while k <= len
            invariant
                self.wf(),
                selection_index < len,
                len == self.children@.len(),
                1 <= k <= len + 1,
                forall|j: int|
                    1 <= j < k ==> (#[trigger] self.children@[(selection_index + len - j) % (
                    len as int)].1) is Separator,
            decreases len + 1 - k,
        {
            let idx = (selection_index + len - k) % len;
            let is_sep = match &self.children[idx].1 {
                MenuAction::Separator => true,
                _ => false,
            };
            if !is_sep {
                return idx;
            }
            k += 1;
        }
        proof {
            lemma_back_step_reaches(self.children@, selection_index as int);
        }
        selection_index
    }

    /// The width of the menu on screen: two columns of padding beyond the
    /// widest label, markers not counted.
    pub fn get_menu_width(&self) -> (r: usize)
        requires
            self.wf(),
        ensures
            r == 2 + max_display_len(self.children@, self.children@.len() as int),
    {
        let len = self.children.len();
        let mut m: usize = 0;
        let mut i: usize = 0;
        while i < len
            invariant
                self.wf(),
                i <= len,
                len == self.children@.len(),
                m == max_display_len(self.children@, i as int),
                m <= 0xFFFF,
            decreases len - i,
        {
            let dl = label_display_len(self.children[i].0.as_str());
            if dl > m {
                m = dl;
            }
            i += 1;
        }
        2 + m
    }

    /// The index of the first non-separator entry whose shortcut matches the
    /// key, case-insensitively; in declaration order, the first match wins.
    pub fn match_shortcut(&self, key: char) -> (r: Option<usize>)
        ensures
            match r {
                Some(i) => i < self.children@.len() && child_matches(
                    self.children@,
                    i as int,
                    key,
                ) && (forall|j: int|
                    0 <= j < i ==> !child_matches(self.children@, j, key)),
                None => forall|j: int|
                    0 <= j < self.children@.len() ==> !child_matches(self.children@, j, key),
            },
    {
        let lowered = ansi::to_lower(key);
        let len = self.children.len();
        let mut i: usize = 0;
        while i < len
            invariant
                i <= len,
                len == self.children@.len(),
                lowered == lower_char(key),
                forall|j: int| 0 <= j < i ==> !child_matches(self.children@, j, key),
            decreases len - i,
        {
            let (name, entry) = &self.children[i];
            let is_sep = match entry {
                MenuAction::Separator => true,
                _ => false,
            };
            if !is_sep {
                match get_menu_shortcut_from_name(name.as_str()) {
                    Some(c) => {
                        if ansi::to_lower(c) == lowered {
                            return Some(i);
                        }
                    },
                    None => {},
                }
            }
            i += 1;
        }
        None
    }

    /// The entry activated by a shortcut key press, if any: separators are
    /// ignored and the first matching entry in declaration order wins.
    pub fn maybe_handle_key_press(&self, key: char) -> (r: Option<&MenuAction>)
        ensures
            match r {
                Some(a) => exists|i: int|
                    0 <= i < self.children@.len() && #[trigger] child_matches(
                        self.children@,
                        i,
                        key,
                    ) && (forall|j: int|
                        0 <= j < i ==> !child_matches(self.children@, j, key)) && *a
                        == self.children@[i].1,
                None => forall|j: int|
                    0 <= j < self.children@.len() ==> !child_matches(self.children@, j, key),
            },
    {
        match self.match_shortcut(key) {
            Some(i) => Some(&self.children[i].1),
            None => None,
        }
    }
}

/// Some forward step of at most the menu's length reaches a non-separator
/// entry.
proof fn lemma_step_reaches(cs: Seq<(String, MenuAction)>, sel: int)
    requires
        1 <= cs.len(),
        0 <= sel < cs.len(),
        exists|i: int| 0 <= i < cs.len() && !((#[trigger] cs[i].1) is Separator),
    ensures
        exists|j: int|
            1 <= j <= cs.len() && !((#[trigger] cs[(sel + j) % (
            cs.len() as int)].1) is Separator),
{
    let len = cs.len() as int;
    let ns = choose|i: int| 0 <= i < cs.len() && !((#[trigger] cs[i].1) is Separator);
    let j = if ns > sel {
        ns - sel
    } else {
        ns + len - sel
    };
    assert(1 <= j <= len);
    if ns > sel {
        lemma_small_mod(ns as nat, len as nat);
        assert((sel + j) % len == ns);
    } else {
        lemma_mod_multiples_vanish(1, ns, len);
        lemma_small_mod(ns as nat, len as nat);
        assert(sel + j == 1 * len + ns);
        assert((sel + j) % len == ns);
    }
    assert(!(cs[(sel + j) % len].1 is Separator));
}

/// Some backward step of at most the menu's length reaches a non-separator
/// entry.
proof fn lemma_back_step_reaches(cs: Seq<(String, MenuAction)>, sel: int)
    requires
        1 <= cs.len(),
        0 <= sel < cs.len(),
        exists|i: int| 0 <= i < cs.len() && !((#[trigger] cs[i].1) is Separator),
    ensures
        exists|j: int|
            1 <= j <= cs.len() && !((#[trigger] cs[(sel + cs.len() - j) % (
            cs.len() as int)].1) is Separator),
{
    let len = cs.len() as int;
    let ns = choose|i: int| 0 <= i < cs.len() && !((#[trigger] cs[i].1) is Separator);
    let j = if ns < sel {
        sel - ns
    } else {
        sel + len - ns
    };
    assert(1 <= j <= len);
    if ns < sel {
        lemma_small_mod(ns as nat, len as nat);
        assert(sel + len - j == len + ns);
        lemma_mod_multiples_vanish(1, ns, len);
        assert((sel + len - j) % len == ns);
    } else {
        lemma_small_mod(ns as nat, len as nat);
        assert(sel + len - j == ns);
        assert((sel + len - j) % len == ns);
    }
    assert(!(cs[(sel + len - j) % len].1 is Separator));
}

/// The decision an open menu takes on one keyboard event: move the cursor,
/// run an action (closing every open menu), open the sub-menu behind the
/// entry at an index, or dismiss this menu alone.
#[derive(Debug, Copy, Clone, PartialEq, Eq, Structural)]
pub enum MenuStep {
    MoveTo(usize),
    Run(Action),
    Open(usize),
    Dismiss,
}

impl Menu {
    /// One transition of the modal menu loop: what an open menu showing the
    /// cursor on `selection_index` does with one keyboard event.  The caller
    /// drives the loop, performs the returned step, and anchors an opened
    /// sub-menu at its own origin plus this menu's width.
    pub fn take_over_step(&self, selection_index: usize, key: Key) -> (r: MenuStep)
        requires
            self.wf(),
            selection_index < self.children@.len(),
            !(self.children@[selection_index as int].1 is Separator),
        ensures
            key == Key::Up ==> (r matches MenuStep::MoveTo(v) && is_prev_selection(
                self.children@,
                selection_index as int,
                v as int,
            ) && v < self.children@.len() && !(self.children@[v as int].1 is Separator)),
            key == Key::Down ==> (r matches MenuStep::MoveTo(v) && is_next_selection(
                self.children@,
                selection_index as int,
                v as int,
            ) && v < self.children@.len() && !(self.children@[v as int].1 is Separator)),
            key == Key::Char('\n') ==> (match self.children@[selection_index as int].1 {
                MenuAction::Action(a) => r == MenuStep::Run(a),
                MenuAction::SubMenu(_) => r == MenuStep::Open(selection_index),
                MenuAction::Separator => true,
            }),
            (match key {
                Key::Char(c) => c != '\n' ==> (match r {
                    MenuStep::MoveTo(_) => false,
                    MenuStep::Run(a) => exists|i: int|
                        0 <= i < self.children@.len() && #[trigger] child_matches(
                            self.children@,
                            i,
                            c,
                        ) && (forall|j: int|
                            0 <= j < i ==> !child_matches(self.children@, j, c))
                            && self.children@[i].1 == MenuAction::Action(a),
                    MenuStep::Open(i) => i < self.children@.len() && child_matches(
                        self.children@,
                        i as int,
                        c,
                    ) && (forall|j: int|
                        0 <= j < i ==> !child_matches(self.children@, j, c))
                        && self.children@[i as int].1 is SubMenu,
                    MenuStep::Dismiss => forall|j: int|
                        0 <= j < self.children@.len() ==> !child_matches(self.children@, j, c),
                }),
                _ => true,
            }),
            (key == Key::Left || key == Key::Right || key == Key::Other) ==> r
                == MenuStep::Dismiss,
    {
        match key {
            Key::Up => MenuStep::MoveTo(self.previous(selection_index)),
            Key::Down => MenuStep::MoveTo(self.next(selection_index)),
            Key::Char(c) => {
                if c == '\n' {
                    match &self.children[selection_index].1 {
                        MenuAction::Action(a) => MenuStep::Run(*a),
                        MenuAction::SubMenu(_) => MenuStep::Open(selection_index),
                        MenuAction::Separator => MenuStep::Dismiss,
                    }
                } else {
                    match self.match_shortcut(c) {
                        Some(i) => {
                            match &self.children[i].1 {
                                MenuAction::Action(a) => MenuStep::Run(*a),
                                MenuAction::SubMenu(_) => MenuStep::Open(i),
                                MenuAction::Separator => MenuStep::Dismiss,
                            }
                        },
                        None => MenuStep::Dismiss,
                    }
                }
            },
            _ => MenuStep::Dismiss,
        }
    }
}

/// The label that marks the distinguished help menu, always rendered flush
/// to the right edge of the bar.
pub open spec fn help_label() -> Seq<char> {
    seq!['_', 'H', 'e', 'l', 'p']
}

/// Whether a label is the distinguished help label.
pub fn is_help_label(name: &str) -> (r: bool)
    ensures
        r == (name@ == help_label()),
{
    let n = name.unicode_len();
    if n != 5 {
        return false;
    }
    let same = name.get_char(0) == '_' && name.get_char(1) == 'H' && name.get_char(2) == 'e'
        && name.get_char(3) == 'l' && name.get_char(4) == 'p';
    proof {
        if same {
            assert(name@ =~= help_label());
        }
    }
    same
}

/// The number of columns the first `n` labels of the bar span, markers not
/// drawn.
pub open spec fn label_span_sum(ms: Seq<(String, Menu)>, n: int) -> int
    decreases n,
{
    if n <= 0 {
        0
    } else {
        label_span_sum(ms, n - 1) + display_len(ms[n - 1].0@)
    }
}

/// The screen column (1-indexed) where the drop-down of menu `idx` opens:
/// the help menu is flush right at `term_width - 7`; any other menu sits
/// after one leading column, the labels before it, and one separating column
/// before each label.
pub open spec fn spec_origin_x(ms: Seq<(String, Menu)>, idx: int, term_width: int) -> int {
    if ms[idx].0@ == help_label() {
        term_width - 7
    } else {
        1 + label_span_sum(ms, idx) + idx + 1
    }
}

/// The menu at `i` has a shortcut mnemonic matching the pressed key,
/// case-insensitively.
pub open spec fn bar_matches(ms: Seq<(String, Menu)>, i: int, key: char) -> bool {
    spec_shortcut(ms[i].0@) matches Some(c) && lower_char(c) == lower_char(key)
}

/// Prefix sums of label spans are non-negative and monotone.
proof fn lemma_span_sum_bounds(ms: Seq<(String, Menu)>, a: int, b: int)
    requires
        0 <= a <= b,
    ensures
        0 <= label_span_sum(ms, a) <= label_span_sum(ms, b),
    decreases b,
{
    if b <= 0 {
    } else if a == b {
        lemma_span_sum_bounds(ms, a - 1, b - 1);
    } else {
        lemma_span_sum_bounds(ms, a, b - 1);
    }
}

impl MenuBar {
    /// A usable bar: non-empty, the cursor in range, labels small enough for
    /// screen arithmetic, every marker followed by a character, and every
    /// menu carrying a shortcut.
    pub open spec fn wf(self) -> bool {
        let ms = self.menus@;
        &&& 1 <= ms.len() <= 0xFFFF
        &&& self.selection_index < ms.len()
        &&& forall|i: int| 0 <= i < ms.len() ==> (#[trigger] ms[i].0)@.len() <= 0xFFFF
        &&& forall|i: int| 0 <= i < ms.len() ==> markers_ok((#[trigger] ms[i].0)@)
        &&& forall|i: int| 0 <= i < ms.len() ==> spec_shortcut((#[trigger] ms[i].0)@) is Some
    }

    /// Every drop-down origin fits the 1-indexed cursor codes for this
    /// terminal width.
    pub open spec fn origins_fit(self, term_width: int) -> bool {
        &&& forall|i: int|
            0 <= i < self.menus@.len() ==> 1 + #[trigger] label_span_sum(self.menus@, i) + i + 1
                <= 0xFFFF
        &&& (exists|i: int|
            0 <= i < self.menus@.len() && (#[trigger] self.menus@[i].0)@ == help_label()) ==> 7
            <= term_width
    }

    /// Runtime check of `wf`, so that a host can reject a malformed bar at
    /// construction time instead of faulting later.
    pub fn is_well_formed(&self) -> (r: bool)
        ensures
            r == self.wf(),
    {
        let len = self.menus.len();
        if len == 0 || len > 0xFFFF || self.selection_index >= len {
            return false;
        }
        let mut i: usize = 0;
        while i < len
            invariant
                i <= len,
                len == self.menus@.len(),
                forall|j: int| 0 <= j < i ==> (#[trigger] self.menus@[j].0)@.len() <= 0xFFFF,
                forall|j: int| 0 <= j < i ==> markers_ok((#[trigger] self.menus@[j].0)@),
                forall|j: int|
                    0 <= j < i ==> spec_shortcut((#[trigger] self.menus@[j].0)@) is Some,
            decreases len - i,
        {
            let name = self.menus[i].0.as_str();
            if name.unicode_len() > 0xFFFF {
                return false;
            }
            if !label_markers_ok(name) {
                return false;
            }
            if get_menu_shortcut_from_name(name).is_none() {
                return false;
            }
            i += 1;
        }
        true
    }

    /// The screen column where the drop-down of menu `idx` opens.
    pub fn get_origin_x_of_menu(&self, idx: usize, term_width: u16) -> (r: u16)
        requires
            self.wf(),
            idx < self.menus@.len(),
            self.origins_fit(term_width as int),
        ensures
            r as int == spec_origin_x(self.menus@, idx as int, term_width as int),
    {
        if is_help_label(self.menus[idx].0.as_str()) {
            term_width - 7
        } else {
            let mut sum: usize = 0;
            let mut i: usize = 0;
            while i < idx
                invariant
                    self.wf(),
                    self.origins_fit(term_width as int),
                    idx < self.menus@.len(),
                    i <= idx,
                    sum == label_span_sum(self.menus@, i as int),
                decreases idx - i,
            {
                proof {
                    lemma_span_sum_bounds(self.menus@, i as int + 1, idx as int);
                }
                sum = sum + label_display_len(self.menus[i].0.as_str());
                i += 1;
            }
            (1 + sum + idx + 1) as u16
        }
    }

    /// One keyboard event against the idle bar.  Left and Right move the
    /// cursor with wraparound; Enter resolves the selected menu; a printable
    /// character resolves the first menu whose shortcut matches it,
    /// case-insensitively; anything else is unhandled.  A resolved menu is
    /// returned together with the screen column where its drop-down opens.
    pub fn maybe_handle_key_press(&mut self, key: Key, term_width: u16) -> (r: Option<
        (&Menu, u16),
    >)
        requires
            old(self).wf(),
            old(self).origins_fit(term_width as int),
        ensures
            final(self).wf(),
            final(self).menus@ == old(self).menus@,
            key == Key::Right ==> final(self).selection_index as int == (old(self).selection_index + 1) % (old(self).menus@.len() as int) && r is None,
            key == Key::Left ==> final(self).selection_index as int == (old(self).selection_index
                + old(self).menus@.len() - 1) % (old(self).menus@.len() as int) && r is None,
            (key == Key::Up || key == Key::Down || key == Key::Other) ==> r is None && final(self).selection_index == old(self).selection_index,
            key == Key::Char('\n') ==> final(self).selection_index == old(self).selection_index
                && (match r {
                Some(p) => *p.0 == old(self).menus@[old(self).selection_index as int].1 && p.1
                    as int == spec_origin_x(
                    old(self).menus@,
                    old(self).selection_index as int,
                    term_width as int,
                ),
                None => false,
            }),
            (match key {
                Key::Char(c) => c != '\n' ==> final(self).selection_index == old(self).selection_index
                    && (match r {
                    Some(p) => exists|i: int|
                        0 <= i < old(self).menus@.len() && #[trigger] bar_matches(
                            old(self).menus@,
                            i,
                            c,
                        ) && (forall|j: int|
                            0 <= j < i ==> !bar_matches(old(self).menus@, j, c)) && *p.0 == old(self).menus@[i].1 && p.1 as int == spec_origin_x(
                            old(self).menus@,
                            i,
                            term_width as int,
                        ),
                    None => forall|j: int|
                        0 <= j < old(self).menus@.len() ==> !bar_matches(old(self).menus@, j, c),
                }),
                _ => true,
            }),
    {
        let len = self.menus.len();
        match key {
            Key::Right => {
                proof {
                    if self.selection_index + 1 >= len {
                        lemma_mod_self_0(len as int);
                    } else {
                        lemma_small_mod((self.selection_index + 1) as nat, len as nat);
                    }
                }
                if self.selection_index + 1 >= len {
                    self.selection_index = 0;
                } else {
                    self.selection_index = self.selection_index + 1;
                }
                None
            },
            Key::Left => {
                proof {
                    if self.selection_index == 0 {
                        lemma_small_mod((len - 1) as nat, len as nat);
                    } else {
                        lemma_mod_multiples_vanish(1, self.selection_index as int - 1, len as int);
                        lemma_small_mod((self.selection_index - 1) as nat, len as nat);
                    }
                }
                if self.selection_index == 0 {
                    self.selection_index = len - 1;
                } else {
                    self.selection_index = self.selection_index - 1;
                }
                None
            },
            Key::Char(c) => {
                if c == '\n' {
                    let ox = self.get_origin_x_of_menu(self.selection_index, term_width);
                    Some((&self.menus[self.selection_index].1, ox))
                } else {
                    match self.match_bar_shortcut(c) {
                        Some(i) => {
                            let ox = self.get_origin_x_of_menu(i, term_width);
                            Some((&self.menus[i].1, ox))
                        },
                        None => None,
                    }
                }
            },
            _ => None,
        }
    }

    /// The index of the first menu whose shortcut matches the key.
    fn match_bar_shortcut(&self, key: char) -> (r: Option<usize>)
        ensures
            match r {
                Some(i) => i < self.menus@.len() && bar_matches(self.menus@, i as int, key) && (
                forall|j: int| 0 <= j < i ==> !bar_matches(self.menus@, j, key)),
                None => forall|j: int|
                    0 <= j < self.menus@.len() ==> !bar_matches(self.menus@, j, key),
            },
    {
        let lowered = ansi::to_lower(key);
        let len = self.menus.len();
        let mut i: usize = 0;
        while i < len
            invariant
                i <= len,
                len == self.menus@.len(),
                lowered == lower_char(key),
                forall|j: int| 0 <= j < i ==> !bar_matches(self.menus@, j, key),
            decreases len - i,
        {
            match get_menu_shortcut_from_name(self.menus[i].0.as_str()) {
                Some(sc) => {
                    if ansi::to_lower(sc) == lowered {
                        return Some(i);
                    }
                },
                None => {},
            }
            i += 1;
        }
        None
    }
}

/// `n` copies of one character.
pub open spec fn char_repeat(c: char, n: int) -> Seq<char>
    decreases n,
{
    if n <= 0 {
        Seq::empty()
    } else {
        char_repeat(c, n - 1).push(c)
    }
}

/// A run of `n` copies of one character.
pub fn repeat_char(c: char, n: usize) -> (out: String)
    ensures
        out@ == char_repeat(c, n as int),
{
    let mut out = String::new();
    let mut i: usize = 0;
    while i < n
        invariant
            i <= n,
            out@ == char_repeat(c, i as int),
        decreases n - i,
    {
        ansi::push_char(&mut out, c);
        i += 1;
    }
    out
}

/// The code stream that paints a `w` by `h` rectangle of spaces anchored at
/// the 1-indexed position (`ox`, `oy`) in the background color: the
/// background selection, then one cursor-position code and one run of spaces
/// per row.
pub open spec fn fill_rows_seq(ox: int, oy: int, w: int, r: int) -> Seq<char>
    decreases r,
{
    if r <= 0 {
        Seq::empty()
    } else {
        fill_rows_seq(ox, oy, w, r - 1) + ansi::goto_seq(ox as nat, (oy + r - 1) as nat)
            + char_repeat(' ', w)
    }
}

pub open spec fn fill_rect_seq(c: Color, ox: int, oy: int, w: int, h: int) -> Seq<char> {
    ansi::bg_seq(c) + fill_rows_seq(ox, oy, w, h)
}

/// Paint a filled rectangle of spaces in the given background color.
pub fn fill_rect(color: Color, origin: (u16, u16), size: (usize, usize)) -> (out: String)
    requires
        1 <= origin.0,
        1 <= origin.1,
        origin.1 + size.1 <= 0xFFFF,
    ensures
        out@ == fill_rect_seq(
            color,
            origin.0 as int,
            origin.1 as int,
            size.0 as int,
            size.1 as int,
        ),
{
    let mut out = String::new();
    out.append(ansi::bg_code(color));
    let row = repeat_char(' ', size.0);
    let mut r: usize = 0;
    proof {
        assert(out@ =~= ansi::bg_seq(color) + fill_rows_seq(
            origin.0 as int,
            origin.1 as int,
            size.0 as int,
            0,
        ));
    }
    while r < size.1
        invariant
            r <= size.1,
            1 <= origin.0,
            1 <= origin.1,
            origin.1 + size.1 <= 0xFFFF,
            row@ == char_repeat(' ', size.0 as int),
            out@ == ansi::bg_seq(color) + fill_rows_seq(
                origin.0 as int,
                origin.1 as int,
                size.0 as int,
                r as int,
            ),
        decreases size.1 - r,
    {
        let g = ansi::goto_code(origin.0, origin.1 + r as u16);
        out.append(g.as_str());
        out.append(row.as_str());
        proof {
            assert(out@ =~= ansi::bg_seq(color) + fill_rows_seq(
                origin.0 as int,
                origin.1 as int,
                size.0 as int,
                r as int + 1,
            ));
        }
        r += 1;
    }
    out
}

/// The side rows of a thin rectangle outline: for each interior row, a
/// vertical bar at the left edge and one at the right edge.
pub open spec fn outline_sides_seq(ox: int, oy: int, w: int, r: int) -> Seq<char>
    decreases r,
{
    if r <= 0 {
        Seq::empty()
    } else {
        outline_sides_seq(ox, oy, w, r - 1) + ansi::goto_seq(ox as nat, (oy + r) as nat)
            + seq!['│'] + ansi::goto_seq((ox + w - 1) as nat, (oy + r) as nat) + seq!['│']
    }
}

/// The code stream that draws a thin unfilled rectangle outline in box
/// characters: attribute selections, the top border, the two side columns,
/// then the bottom border.
pub open spec fn outline_rect_seq(
    fgc: Color,
    bgc: Color,
    ox: int,
    oy: int,
    w: int,
    h: int,
) -> Seq<char> {
    ansi::fg_seq(fgc) + ansi::bg_seq(bgc) + ansi::goto_seq(ox as nat, oy as nat) + seq!['┌']
        + char_repeat('─', w - 2) + seq!['┐'] + outline_sides_seq(ox, oy, w, h - 2)
        + ansi::goto_seq(ox as nat, (oy + h - 1) as nat) + seq!['└'] + char_repeat('─', w - 2)
        + seq!['┘']
}

/// Draw a thin unfilled rectangle outline.
pub fn outline_rect(fgc: Color, bgc: Color, origin: (u16, u16), size: (usize, usize)) -> (out:
    String)
    requires
        1 <= origin.0,
        1 <= origin.1,
        2 <= size.0,
        2 <= size.1,
        origin.0 + size.0 <= 0xFFFF,
        origin.1 + size.1 <= 0xFFFF,
    ensures
        out@ == outline_rect_seq(
            fgc,
            bgc,
            origin.0 as int,
            origin.1 as int,
            size.0 as int,
            size.1 as int,
        ),
{
    let ghost ox = origin.0 as int;
    let ghost oy = origin.1 as int;
    let ghost w = size.0 as int;
    let ghost h = size.1 as int;
    let mut out = String::new();
    out.append(ansi::fg_code(fgc));
    out.append(ansi::bg_code(bgc));
    let g = ansi::goto_code(origin.0, origin.1);
    out.append(g.as_str());
    ansi::push_char(&mut out, '┌');
    let rule = repeat_char('─', size.0 - 2);
    out.append(rule.as_str());
    ansi::push_char(&mut out, '┐');
    let ghost top = ansi::fg_seq(fgc) + ansi::bg_seq(bgc) + ansi::goto_seq(ox as nat, oy as nat)
        + seq!['┌'] + char_repeat('─', w - 2) + seq!['┐'];
    proof {
        assert(out@ =~= top + outline_sides_seq(ox, oy, w, 0));
    }
    let mut r: usize = 0;
    while r < size.1 - 2
        invariant
            r <= size.1 - 2,
            1 <= origin.0,
            1 <= origin.1,
            2 <= size.0,
            2 <= size.1,
            origin.0 + size.0 <= 0xFFFF,
            origin.1 + size.1 <= 0xFFFF,
            ox == origin.0 as int,
            oy == origin.1 as int,
            w == size.0 as int,
            h == size.1 as int,
            out@ == top + outline_sides_seq(ox, oy, w, r as int),
        decreases size.1 - 2 - r,
    {
        let gl = ansi::goto_code(origin.0, origin.1 + (r + 1) as u16);
        out.append(gl.as_str());
        ansi::push_char(&mut out, '│');
        let gr = ansi::goto_code(origin.0 + (size.0 - 1) as u16, origin.1 + (r + 1) as u16);
        out.append(gr.as_str());
        ansi::push_char(&mut out, '│');
        proof {
            assert(out@ =~= top + outline_sides_seq(ox, oy, w, r as int + 1));
        }
        r += 1;
    }
    let gb = ansi::goto_code(origin.0, origin.1 + (size.1 - 1) as u16);
    out.append(gb.as_str());
    ansi::push_char(&mut out, '└');
    out.append(rule.as_str());
    ansi::push_char(&mut out, '┘');
    proof {
        assert(out@ =~= outline_rect_seq(fgc, bgc, ox, oy, w, h));
    }
    out
}

/// A menu label as drawn inside an open menu: the character after each
/// marker is shown in the highlight color and the foreground then returns to
/// the color of the row (inverted for the selected row); the marker itself is
/// not drawn.
pub open spec fn menu_label_seq(s: Seq<char>, selected: bool) -> Seq<char>
    decreases s.len(),
{
    if s.len() == 0 {
        Seq::empty()
    } else if s[0] == '_' {
        if s.len() >= 2 {
            ansi::fg_seq(Color::LightWhite) + seq![s[1]] + (if selected {
                ansi::fg_seq(Color::White)
            } else {
                ansi::fg_seq(Color::Black)
            }) + menu_label_seq(s.skip(2), selected)
        } else {
            Seq::empty()
        }
    } else {
        seq![s[0]] + menu_label_seq(s.skip(1), selected)
    }
}

/// Format a label for an open menu's row.
pub fn format_menu_label(name: &str, selected: bool) -> (out: String)
    ensures
        out@ == menu_label_seq(name@, selected),
{
    let n = name.unicode_len();
    let mut out = String::new();
    let mut i: usize = 0;
    proof {
        assert(name@.skip(0) =~= name@);
        assert(out@ + menu_label_seq(name@, selected) =~= menu_label_seq(name@, selected));
    }
    while i < n
        invariant
            i <= n,
            n == name@.len(),
            menu_label_seq(name@, selected) == out@ + menu_label_seq(
                name@.skip(i as int),
                selected,
            ),
        decreases n - i,
    {
        let ghost pre = out@;
        let ghost suffix = name@.skip(i as int);
        proof {
            assert(suffix[0] == name@[i as int]);
        }
        let c = name.get_char(i);
        if c == '_' {
            if i + 1 < n {
                proof {
                    assert(suffix.skip(2) =~= name@.skip(i as int + 2));
                }
                out.append(ansi::fg_code(Color::LightWhite));
                ansi::push_char(&mut out, name.get_char(i + 1));
                if selected {
                    out.append(ansi::fg_code(Color::White));
                } else {
                    out.append(ansi::fg_code(Color::Black));
                }
                proof {
                    assert(out@ =~= pre + (ansi::fg_seq(Color::LightWhite) + seq![name@[i + 1]]
                        + (if selected {
                        ansi::fg_seq(Color::White)
                    } else {
                        ansi::fg_seq(Color::Black)
                    })));
                    assert(menu_label_seq(name@, selected) == out@ + menu_label_seq(
                        name@.skip(i as int + 2),
                        selected,
                    ));
                }
                i += 2;
            } else {
                proof {
                    assert(suffix.len() == 1);
                    assert(menu_label_seq(suffix, selected) =~= Seq::<char>::empty());
                    assert(menu_label_seq(name@, selected) =~= out@);
                }
                return out;
            }
        } else {
            proof {
                assert(suffix.skip(1) =~= name@.skip(i as int + 1));
            }
            ansi::push_char(&mut out, c);
            proof {
                assert(out@ =~= pre + seq![name@[i as int]]);
                assert(menu_label_seq(name@, selected) == out@ + menu_label_seq(
                    name@.skip(i as int + 1),
                    selected,
                ));
            }
            i += 1;
        }
    }
    proof {
        assert(name@.skip(n as int).len() == 0);
        assert(menu_label_seq(name@, selected) =~= out@);
    }
    out
}

/// A menu-bar label as drawn in the bar: when the bar is focused the
/// character after each marker is shown in the highlight color and the
/// foreground then returns to the row color; when it is not, the character
/// is drawn plainly.  The marker itself is never drawn.
pub open spec fn bar_label_seq(s: Seq<char>, focused: bool, selected: bool) -> Seq<char>
    decreases s.len(),
{
    if s.len() == 0 {
        Seq::empty()
    } else if s[0] == '_' {
        if s.len() >= 2 {
            (if focused {
                ansi::fg_seq(Color::LightWhite) + seq![s[1]] + (if selected {
                    ansi::fg_seq(Color::White)
                } else {
                    ansi::fg_seq(Color::Black)
                })
            } else {
                seq![s[1]]
            }) + bar_label_seq(s.skip(2), focused, selected)
        } else {
            Seq::empty()
        }
    } else {
        seq![s[0]] + bar_label_seq(s.skip(1), focused, selected)
    }
}

/// Format a label for the menu bar.
pub fn format_bar_label(name: &str, focused: bool, selected: bool) -> (out: String)
    ensures
        out@ == bar_label_seq(name@, focused, selected),
{
    let n = name.unicode_len();
    let mut out = String::new();
    let mut i: usize = 0;
    proof {
        assert(name@.skip(0) =~= name@);
        assert(out@ + bar_label_seq(name@, focused, selected) =~= bar_label_seq(
            name@,
            focused,
            selected,
        ));
    }
    while i < n
        invariant
            i <= n,
            n == name@.len(),
            bar_label_seq(name@, focused, selected) == out@ + bar_label_seq(
                name@.skip(i as int),
                focused,
                selected,
            ),
        decreases n - i,
    {
        let ghost pre = out@;
        let ghost suffix = name@.skip(i as int);
        proof {
            assert(suffix[0] == name@[i as int]);
        }
        let c = name.get_char(i);
        if c == '_' {
            if i + 1 < n {
                proof {
                    assert(suffix.skip(2) =~= name@.skip(i as int + 2));
                }
                let sc = name.get_char(i + 1);
                if focused {
                    out.append(ansi::fg_code(Color::LightWhite));
                    ansi::push_char(&mut out, sc);
                    if selected {
                        out.append(ansi::fg_code(Color::White));
                    } else {
                        out.append(ansi::fg_code(Color::Black));
                    }
                } else {
                    ansi::push_char(&mut out, sc);
                }
                proof {
                    assert(out@ =~= pre + (if focused {
                        ansi::fg_seq(Color::LightWhite) + seq![name@[i + 1]] + (if selected {
                            ansi::fg_seq(Color::White)
                        } else {
                            ansi::fg_seq(Color::Black)
                        })
                    } else {
                        seq![name@[i + 1]]
                    }));
                    assert(bar_label_seq(name@, focused, selected) == out@ + bar_label_seq(
                        name@.skip(i as int + 2),
                        focused,
                        selected,
                    ));
                }
                i += 2;
            } else {
                proof {
                    assert(suffix.len() == 1);
                    assert(bar_label_seq(suffix, focused, selected) =~= Seq::<char>::empty());
                    assert(bar_label_seq(name@, focused, selected) =~= out@);
                }
                return out;
            }
        } else {
            proof {
                assert(suffix.skip(1) =~= name@.skip(i as int + 1));
            }
            ansi::push_char(&mut out, c);
            proof {
                assert(out@ =~= pre + seq![name@[i as int]]);
                assert(bar_label_seq(name@, focused, selected) == out@ + bar_label_seq(
                    name@.skip(i as int + 1),
                    focused,
                    selected,
                ));
            }
            i += 1;
        }
    }
    proof {
        assert(name@.skip(n as int).len() == 0);
        assert(bar_label_seq(name@, focused, selected) =~= out@);
    }
    out
}

/// One row of an open menu: a cursor-position code, the row colors (inverted
/// for the selected row), then either a horizontal rule spanning the item
/// width or the formatted label padded with spaces to the item width.
pub open spec fn menu_item_seq(
    cs: Seq<(String, MenuAction)>,
    width: int,
    ox: int,
    oy: int,
    i: int,
    sel: int,
) -> Seq<char> {
    ansi::goto_seq((ox + 1) as nat, (oy + 1 + i) as nat) + (if i == sel {
        ansi::bg_seq(Color::Black) + ansi::fg_seq(Color::White)
    } else {
        ansi::bg_seq(Color::White) + ansi::fg_seq(Color::Black)
    }) + (if cs[i].1 is Separator {
        char_repeat('─', width - 2)
    } else {
        menu_label_seq(cs[i].0@, i == sel) + char_repeat(' ', width - 2 - display_len(cs[i].0@))
    })
}

/// The rows of an open menu, in order, for the first `n` entries.
pub open spec fn menu_items_seq(
    cs: Seq<(String, MenuAction)>,
    width: int,
    ox: int,
    oy: int,
    n: int,
    sel: int,
) -> Seq<char>
    decreases n,
{
    if n <= 0 {
        Seq::empty()
    } else {
        menu_items_seq(cs, width, ox, oy, n - 1, sel) + menu_item_seq(cs, width, ox, oy, n - 1, sel)
    }
}

/// The full code stream of an open menu anchored at (`ox`, `oy`): a filled
/// background rectangle, a thin outline, then every row.
pub open spec fn menu_render_seq(cs: Seq<(String, MenuAction)>, ox: int, oy: int, sel: int) -> Seq<
    char,
> {
    let width = 2 + max_display_len(cs, cs.len() as int);
    let height = cs.len() + 2;
    fill_rect_seq(Color::White, ox, oy, width as int, height as int) + outline_rect_seq(
        Color::Black,
        Color::White,
        ox,
        oy,
        width as int,
        height as int,
    ) + menu_items_seq(cs, width as int, ox, oy, cs.len() as int, sel)
}

/// Every label's display length is bounded by the maximum over a prefix that
/// contains it.
proof fn lemma_max_display_len_ge(cs: Seq<(String, MenuAction)>, n: int, i: int)
    requires
        0 <= i < n,
    ensures
        display_len(cs[i].0@) <= max_display_len(cs, n),
    decreases n,
{
    if i < n - 1 {
        lemma_max_display_len_ge(cs, n - 1, i);
    }
}

impl Menu {
    /// The code stream that draws this menu anchored at the 1-indexed
    /// position `origin`, with the row at `selection_index` inverted.
    pub fn render(&self, origin: (u16, u16), selection_index: usize) -> (out: String)
        requires
            self.wf(),
            1 <= origin.0,
            1 <= origin.1,
            origin.0 + 2 + max_display_len(self.children@, self.children@.len() as int) <= 0xFFFF,
            origin.1 + self.children@.len() + 2 <= 0xFFFF,
        ensures
            out@ == menu_render_seq(
                self.children@,
                origin.0 as int,
                origin.1 as int,
                selection_index as int,
            ),
    {
        let ghost cs = self.children@;
        let ghost ox = origin.0 as int;
        let ghost oy = origin.1 as int;
        let len = self.children.len();
        let width = self.get_menu_width();
        let height = len + 2;
        let mut out = fill_rect(Color::White, origin, (width, height));
        let outline = outline_rect(Color::Black, Color::White, origin, (width, height));
        out.append(outline.as_str());
        let ghost frame = fill_rect_seq(Color::White, ox, oy, width as int, height as int)
            + outline_rect_seq(Color::Black, Color::White, ox, oy, width as int, height as int);
        proof {
            assert(out@ =~= frame + menu_items_seq(cs, width as int, ox, oy, 0, selection_index as int));
        }
        let mut i: usize = 0;
        while i < len
            invariant
                self.wf(),
                i <= len,
                len == cs.len(),
                cs == self.children@,
                ox == origin.0 as int,
                oy == origin.1 as int,
                1 <= origin.0,
                1 <= origin.1,
                width == 2 + max_display_len(cs, cs.len() as int),
                origin.0 + width <= 0xFFFF,
                origin.1 + len + 2 <= 0xFFFF,
                out@ == frame + menu_items_seq(
                    cs,
                    width as int,
                    ox,
                    oy,
                    i as int,
                    selection_index as int,
                ),
            decreases len - i,
        {
            let ghost pre = out@;
            let g = ansi::goto_code(origin.0 + 1, origin.1 + 1 + i as u16);
            out.append(g.as_str());
            if i == selection_index {
                out.append(ansi::bg_code(Color::Black));
                out.append(ansi::fg_code(Color::White));
            } else {
                out.append(ansi::bg_code(Color::White));
                out.append(ansi::fg_code(Color::Black));
            }
            let (name, entry) = &self.children[i];
            let is_sep = match entry {
                MenuAction::Separator => true,
                _ => false,
            };
            if is_sep {
                let rule = repeat_char('─', width - 2);
                out.append(rule.as_str());
            } else {
                let label = format_menu_label(name.as_str(), i == selection_index);
                out.append(label.as_str());
                proof {
                    lemma_max_display_len_ge(cs, cs.len() as int, i as int);
                }
                let pad = repeat_char(' ', width - 2 - label_display_len(name.as_str()));
                out.append(pad.as_str());
            }
            proof {
                assert(out@ =~= pre + menu_item_seq(
                    cs,
                    width as int,
                    ox,
                    oy,
                    i as int,
                    selection_index as int,
                ));
                assert(out@ =~= frame + menu_items_seq(
                    cs,
                    width as int,
                    ox,
                    oy,
                    i as int + 1,
                    selection_index as int,
                ));
            }
            i += 1;
        }
        out
    }
}

/// One entry of the menu bar: the help entry first jumps to the right edge
/// (saving the cursor and restoring it afterwards); the entry's colors are
/// inverted when the bar is focused and the cursor rests on it; the label is
/// drawn with one space of padding on each side.
pub open spec fn bar_item_seq(
    ms: Seq<(String, Menu)>,
    ox: int,
    oy: int,
    h_size: int,
    focused: bool,
    sel: int,
    i: int,
) -> Seq<char> {
    let label = ms[i].0@;
    let is_help = label == help_label();
    (if is_help {
        ansi::save_seq() + ansi::goto_seq((ox + h_size - label.len() - 2) as nat, oy as nat)
    } else {
        Seq::empty()
    }) + (if focused && i == sel {
        ansi::bg_seq(Color::Black) + ansi::fg_seq(Color::White)
    } else {
        ansi::bg_seq(Color::White) + ansi::fg_seq(Color::Black)
    }) + seq![' '] + bar_label_seq(label, focused, i == sel) + seq![' '] + (if is_help {
        ansi::restore_seq()
    } else {
        Seq::empty()
    })
}

/// The entries of the bar, in order, for the first `n` menus.
pub open spec fn bar_items_seq(
    ms: Seq<(String, Menu)>,
    ox: int,
    oy: int,
    h_size: int,
    focused: bool,
    sel: int,
    n: int,
) -> Seq<char>
    decreases n,
{
    if n <= 0 {
        Seq::empty()
    } else {
        bar_items_seq(ms, ox, oy, h_size, focused, sel, n - 1) + bar_item_seq(
            ms,
            ox,
            oy,
            h_size,
            focused,
            sel,
            n - 1,
        )
    }
}

/// The full code stream of the bar: a one-row filled background, the
/// background selection, a cursor-position code one column into the bar,
/// then every entry.
pub open spec fn bar_render_seq(
    ms: Seq<(String, Menu)>,
    ox: int,
    oy: int,
    h_size: int,
    focused: bool,
    sel: int,
) -> Seq<char> {
    fill_rect_seq(Color::White, ox, oy, h_size, 1) + ansi::bg_seq(Color::White) + ansi::goto_seq(
        (ox + 1) as nat,
        oy as nat,
    ) + bar_items_seq(ms, ox, oy, h_size, focused, sel, ms.len() as int)
}

impl MenuBar {
    /// The code stream that draws the bar as one row of width `h_size`
    /// anchored at the 1-indexed position `origin`.  When `focused`, the
    /// selected entry is inverted and shortcut letters are highlighted.
    #[verifier::rlimit(100)]
    pub fn render(&self, origin: (u16, u16), h_size: usize, focused: bool) -> (out: String)
        requires
            self.wf(),
            1 <= origin.0,
            1 <= origin.1,
            origin.0 < 0xFFFF,
            origin.1 < 0xFFFF,
            origin.0 + h_size <= 0xFFFF,
            (exists|i: int|
                0 <= i < self.menus@.len() && (#[trigger] self.menus@[i].0)@ == help_label()) ==> 8
                <= origin.0 + h_size,
        ensures
            out@ == bar_render_seq(
                self.menus@,
                origin.0 as int,
                origin.1 as int,
                h_size as int,
                focused,
                self.selection_index as int,
            ),
    {
        let ghost ms = self.menus@;
        let ghost ox = origin.0 as int;
        let ghost oy = origin.1 as int;
        let len = self.menus.len();
        let mut out = fill_rect(Color::White, origin, (h_size, 1));
        out.append(ansi::bg_code(Color::White));
        let g = ansi::goto_code(origin.0 + 1, origin.1);
        out.append(g.as_str());
        let ghost head = fill_rect_seq(Color::White, ox, oy, h_size as int, 1) + ansi::bg_seq(
            Color::White,
        ) + ansi::goto_seq((ox + 1) as nat, oy as nat);
        proof {
            assert(out@ =~= head + bar_items_seq(
                ms,
                ox,
                oy,
                h_size as int,
                focused,
                self.selection_index as int,
                0,
            ));
        }
        let mut i: usize = 0;
        while i < len
            invariant
                self.wf(),
                i <= len,
                len == ms.len(),
                ms == self.menus@,
                ox == origin.0 as int,
                oy == origin.1 as int,
                1 <= origin.0,
                1 <= origin.1,
                origin.0 + h_size <= 0xFFFF,
                (exists|j: int|
                    0 <= j < ms.len() && (#[trigger] ms[j].0)@ == help_label()) ==> 8 <= origin.0
                    + h_size,
                out@ == head + bar_items_seq(
                    ms,
                    ox,
                    oy,
                    h_size as int,
                    focused,
                    self.selection_index as int,
                    i as int,
                ),
            decreases len - i,
        {
            let ghost pre = out@;
            let name = self.menus[i].0.as_str();
            let is_help = is_help_label(name);
            if is_help {
                proof {
                    assert(name@.len() == 5);
                }
                let s = ansi::save_code();
                out.append(s.as_str());
                let gx = ansi::goto_code((origin.0 as usize + h_size - 5 - 2) as u16, origin.1);
                out.append(gx.as_str());
            }
            if focused && i == self.selection_index {
                out.append(ansi::bg_code(Color::Black));
                out.append(ansi::fg_code(Color::White));
            } else {
                out.append(ansi::bg_code(Color::White));
                out.append(ansi::fg_code(Color::Black));
            }
            ansi::push_char(&mut out, ' ');
            let label = format_bar_label(name, focused, i == self.selection_index);
            out.append(label.as_str());
            ansi::push_char(&mut out, ' ');
            if is_help {
                let rst = ansi::restore_code();
                out.append(rst.as_str());
            }
            proof {
                assert(out@ =~= pre + bar_item_seq(
                    ms,
                    ox,
                    oy,
                    h_size as int,
                    focused,
                    self.selection_index as int,
                    i as int,
                ));
                assert(out@ =~= head + bar_items_seq(
                    ms,
                    ox,
                    oy,
                    h_size as int,
                    focused,
                    self.selection_index as int,
                    i as int + 1,
                ));
            }
            i += 1;
        }
        out
    }
}

/// Runtime check that every underscore in the label is followed by a
/// character.
pub fn label_markers_ok(name: &str) -> (r: bool)
    ensures
        r == markers_ok(name@),
{
    let n = name.unicode_len();
    let mut i: usize = 0;
    while i < n
        invariant
            i <= n,
            n == name@.len(),
            forall|j: int| 0 <= j < i && name@[j] == '_' ==> j + 1 < n,
        decreases n - i,
    {
        if name.get_char(i) == '_' && i + 1 >= n {
            return false;
        }
        i += 1;
    }
    true
}

} // verus!
