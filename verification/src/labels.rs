//! The texts of the processor and memory tables of the performance tab.
use vstd::prelude::*;
use vstd::string::StringExecFns;
use crate::number::{decimal, push_decimal};
use crate::performance::{cache_text, format_cache};

verus! {

/// The state of hardware virtualization as shown.
pub open spec fn virtualization_text(enabled: bool) -> Seq<char> {
    if enabled {
        "Включена"@
    } else {
        "Отключена"@
    }
}

/// Shows whether hardware virtualization is enabled.
pub fn virtualization_label(enabled: bool) -> (res: &'static str)
    ensures
        res@ == virtualization_text(enabled),
{
    if enabled {
        "Включена"
    } else {
        "Отключена"
    }
}

/// A cache size in KB as shown; a dash where the size is unknown (0).
pub open spec fn cache_label_text(kb: u64) -> Seq<char> {
    if kb > 0 {
        cache_text(kb)
    } else {
        "—"@
    }
}

/// Shows a cache size given in KB.
pub fn cache_label(kb: u64) -> (res: String)
    ensures
        res@ == cache_label_text(kb),
{
    if kb > 0 {
        format_cache(kb)
    } else {
        String::from_str("—")
    }
}

/// A memory speed as shown; a dash where it is unknown (0).
pub open spec fn speed_text(mts: u64) -> Seq<char> {
    if mts > 0 {
        decimal(mts as nat) + " MT/s"@
    } else {
        "—"@
    }
}

/// Shows a memory speed given in MT/s.
pub fn speed_label(mts: u64) -> (res: String)
    ensures
        res@ == speed_text(mts),
{
    if mts > 0 {
        let mut s = String::new();
        push_decimal(&mut s, mts);
        s.append(" MT/s");
        assert(s@ =~= speed_text(mts));
        s
    } else {
        String::from_str("—")
    }
}

/// A text as shown; a dash where it is empty.
pub open spec fn or_dash_text(t: Seq<char>) -> Seq<char> {
    if t.len() == 0 {
        "—"@
    } else {
        t
    }
}

/// Shows a text, or a dash where it is empty.
pub fn text_or_dash(t: &str) -> (res: String)
    ensures
        res@ == or_dash_text(t@),
{
    if t.is_empty() {
        String::from_str("—")
    } else {
        String::from_str(t)
    }
}

/// The occupied memory slots as shown (`<used> из <total>`); a dash where the
/// number of slots is unknown (0).
pub open spec fn slots_text(used: u64, total: u64) -> Seq<char> {
    if total > 0 {
        decimal(used as nat) + " из "@ + decimal(total as nat)
    } else {
        "—"@
    }
}

/// Shows how many memory slots are occupied.
pub fn slots_label(used: u64, total: u64) -> (res: String)
    ensures
        res@ == slots_text(used, total),
{
    if total > 0 {
        let mut s = String::new();
        push_decimal(&mut s, used);
        s.append(" из ");
        push_decimal(&mut s, total);
        assert(s@ =~= slots_text(used, total));
        s
    } else {
        String::from_str("—")
    }
}

/// The memory type as appended to the memory title: a space and the type, or
/// nothing where the type is unknown (empty).
pub open spec fn type_suffix_text(t: Seq<char>) -> Seq<char> {
    if t.len() == 0 {
        Seq::empty()
    } else {
        " "@ + t
    }
}

/// The memory type as appended to the memory title.
pub fn memory_type_suffix(t: &str) -> (res: String)
    ensures
        res@ == type_suffix_text(t@),
{
    if t.is_empty() {
        String::new()
    } else {
        let mut s = String::from_str(" ");
        s.append(t);
        s
    }
}

} // verus!
