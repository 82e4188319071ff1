//! Static hardware facts read from `Key : Value` listings of the platform's
//! management interface (processor, memory modules and memory slots), and
//! the map from volume letter to disk model.
use vstd::prelude::*;
use crate::text::{
    chars_of, eq_ignore_ascii_case, find_char, key_value, key_value_ranges, line_ranges, range_equals,
    range_equals_ignore_ascii_case, range_texts, ranges_within, text_lines, trim, trim_range, first_index,
    lemma_first_index, lemma_first_index_at,
};
use crate::number::{decimal, lemma_parse_decimal, parse_or_zero, parse_u64, parse_u64_range, push_decimal};
use vstd::string::{StrSliceExecFns, StringExecFns};
use vstd::utf8::{decode_utf8, valid_utf8};

verus! {

/// Static facts about the processor.
#[derive(Debug, Clone)]
pub struct CpuStaticInfo {
    pub virtualization_enabled: bool,
    pub l2_cache_kb: u64,
    pub l3_cache_kb: u64,
}

/// Nothing known: virtualization off, no caches.
pub open spec fn cpu_info_empty() -> CpuStaticInfo {
    CpuStaticInfo { virtualization_enabled: false, l2_cache_kb: 0, l3_cache_kb: 0 }
}

impl Default for CpuStaticInfo {
    fn default() -> (r: Self)
        ensures
            r == cpu_info_empty(),
    {
        CpuStaticInfo { virtualization_enabled: false, l2_cache_kb: 0, l3_cache_kb: 0 }
    }
}

/// What one line of the processor listing changes.
pub open spec fn cpu_line_step(info: CpuStaticInfo, line: Seq<char>) -> CpuStaticInfo {
    match key_value(line) {
        Some((key, value)) => if key == "VirtualizationFirmwareEnabled"@ {
            CpuStaticInfo { virtualization_enabled: eq_ignore_ascii_case(value, "True"@), ..info }
        } else if key == "L2CacheSize"@ {
            CpuStaticInfo { l2_cache_kb: parse_or_zero(value), ..info }
        } else if key == "L3CacheSize"@ {
            CpuStaticInfo { l3_cache_kb: parse_or_zero(value), ..info }
        } else {
            info
        },
        None => info,
    }
}

/// The facts that a sequence of processor listing lines gives, read in order.
pub open spec fn cpu_info_of_lines(lines: Seq<Seq<char>>) -> CpuStaticInfo
    decreases lines.len(),
{
    if lines.len() == 0 {
        cpu_info_empty()
    } else {
        cpu_line_step(cpu_info_of_lines(lines.drop_last()), lines.last())
    }
}

/// The value of the last line of `lines` whose key is `key`, if any.
pub open spec fn last_value_for(lines: Seq<Seq<char>>, key: Seq<char>) -> Option<Seq<char>>
    decreases lines.len(),
{
    if lines.len() == 0 {
        None
    } else {
        match key_value(lines.last()) {
            Some((k, v)) => if k == key {
                Some(v)
            } else {
                last_value_for(lines.drop_last(), key)
            },
            None => last_value_for(lines.drop_last(), key),
        }
    }
}

/// Each processor fact comes from the last line with its key, and is off or 0
/// where no line has that key: virtualization is on where that value is `True`
/// in any case, a cache size is that value read as a number (0 where it is none).
pub proof fn lemma_cpu_facts_from_last_lines(lines: Seq<Seq<char>>)
    ensures
        cpu_info_of_lines(lines).virtualization_enabled == match last_value_for(
            lines,
            "VirtualizationFirmwareEnabled"@,
        ) {
            Some(v) => eq_ignore_ascii_case(v, "True"@),
            None => false,
        },
        cpu_info_of_lines(lines).l2_cache_kb == match last_value_for(lines, "L2CacheSize"@) {
            Some(v) => parse_or_zero(v),
            None => 0,
        },
        cpu_info_of_lines(lines).l3_cache_kb == match last_value_for(lines, "L3CacheSize"@) {
            Some(v) => parse_or_zero(v),
            None => 0,
        },
    decreases lines.len(),
{
    reveal_strlit("VirtualizationFirmwareEnabled");
    reveal_strlit("L2CacheSize");
    reveal_strlit("L3CacheSize");
    assert("L2CacheSize"@[1] != "L3CacheSize"@[1]);
    assert("L2CacheSize"@ != "L3CacheSize"@);
    assert("VirtualizationFirmwareEnabled"@.len() != "L2CacheSize"@.len());
    assert("VirtualizationFirmwareEnabled"@ != "L2CacheSize"@);
    assert("VirtualizationFirmwareEnabled"@ != "L3CacheSize"@);
    if lines.len() > 0 {
        lemma_cpu_facts_from_last_lines(lines.drop_last());
    }
}

/// Reads the processor facts from a `Key : Value` listing: the lines
/// `VirtualizationFirmwareEnabled` (`True` in any case means on), `L2CacheSize`
/// and `L3CacheSize` (in KB; 0 where not a number); a later line wins.
pub fn parse_cpu_static_info(listing: &str) -> (info: CpuStaticInfo)
    ensures
        info == cpu_info_of_lines(text_lines(listing@)),
{
    let chars = chars_of(listing);
    let ranges = line_ranges(&chars);
    let virt = chars_of("VirtualizationFirmwareEnabled");
    let l2 = chars_of("L2CacheSize");
    let l3 = chars_of("L3CacheSize");
    let truth = chars_of("True");
    let mut info = CpuStaticInfo::default();
    let ghost lines = text_lines(chars@);
    let mut i: usize = 0;
    while i < ranges.len()
        invariant
            i <= ranges.len(),
            ranges_within(ranges@, chars.len() as int),
            range_texts(chars@, ranges@) == lines,
            chars@ == listing@,
            lines == text_lines(listing@),
            virt@ == "VirtualizationFirmwareEnabled"@,
            l2@ == "L2CacheSize"@,
            l3@ == "L3CacheSize"@,
            truth@ == "True"@,
            info == cpu_info_of_lines(lines.take(i as int)),
        decreases ranges.len() - i,
    {
        let (lo, hi) = ranges[i];
        assert(ranges@[i as int].0 <= ranges@[i as int].1 <= chars.len());
        assert(lines[i as int] == chars@.subrange(lo as int, hi as int));
        assert(lines.take(i + 1).drop_last() =~= lines.take(i as int));
        match key_value_ranges(&chars, lo, hi) {
            Some(((ka, kb), (va, vb))) => {
                if range_equals(&chars, ka, kb, &virt) {
                    info.virtualization_enabled = range_equals_ignore_ascii_case(
                        &chars,
                        va,
                        vb,
                        &truth,
                    );
                } else if range_equals(&chars, ka, kb, &l2) {
                    info.l2_cache_kb = parse_or_zero_range(&chars, va, vb);
                } else if range_equals(&chars, ka, kb, &l3) {
                    info.l3_cache_kb = parse_or_zero_range(&chars, va, vb);
                }
            },
            None => {},
        }
        i += 1;
    }
    assert(lines.take(ranges.len() as int) =~= lines);
    info
}

/// Reads `chars[lo..hi]` as a number, 0 where it is none.
pub fn parse_or_zero_range(chars: &Vec<char>, lo: usize, hi: usize) -> (v: u64)
    requires
        lo <= hi <= chars.len(),
    ensures
        v == parse_or_zero(chars@.subrange(lo as int, hi as int)),
{
    match parse_u64_range(chars, lo, hi) {
        Some(v) => v,
        None => 0,
    }
}


/// The memory type that an SMBIOS memory type code stands for.
pub open spec fn memory_type_name(code: u64) -> Seq<char> {
    if code == 20 {
        "DDR"@
    } else if code == 21 {
        "DDR2"@
    } else if code == 24 {
        "DDR3"@
    } else if code == 26 {
        "DDR4"@
    } else if code == 34 {
        "DDR5"@
    } else if code == 0 {
        Seq::empty()
    } else {
        "Тип "@ + decimal(code as nat)
    }
}

/// The module form factor that an SMBIOS form factor code stands for.
pub open spec fn form_factor_name(code: u64) -> Seq<char> {
    if code == 8 {
        "DIMM"@
    } else if code == 12 {
        "SODIMM"@
    } else if code == 13 {
        "SRIMM"@
    } else if code == 0 {
        Seq::empty()
    } else {
        "FF "@ + decimal(code as nat)
    }
}

/// Code 0 names nothing; a code without a name is shown as `Тип ` or `FF `
/// followed by a number that reads back as the code.
pub proof fn lemma_unnamed_codes_read_back(code: u64)
    ensures
        code == 0 ==> memory_type_name(code).len() == 0 && form_factor_name(code).len() == 0,
        code != 0 && code != 20 && code != 21 && code != 24 && code != 26 && code != 34 ==> {
            &&& memory_type_name(code).take(4) == "Тип "@
            &&& parse_u64(memory_type_name(code).skip(4)) == Some(code)
        },
        code != 0 && code != 8 && code != 12 && code != 13 ==> {
            &&& form_factor_name(code).take(3) == "FF "@
            &&& parse_u64(form_factor_name(code).skip(3)) == Some(code)
        },
{
    reveal_strlit("Тип ");
    reveal_strlit("FF ");
    lemma_parse_decimal(code);
    let d = decimal(code as nat);
    assert(("Тип "@ + d).take(4) =~= "Тип "@);
    assert(("Тип "@ + d).skip(4) =~= d);
    assert(("FF "@ + d).take(3) =~= "FF "@);
    assert(("FF "@ + d).skip(3) =~= d);
}

/// Names the memory type of an SMBIOS memory type code given as text
/// ("DDR" to "DDR5"; empty for 0 or no number; `Тип <code>` otherwise).
pub fn decode_memory_type(code_str: &str) -> (res: String)
    ensures
        res@ == memory_type_name(parse_or_zero(code_str@)),
{
    let chars = chars_of(code_str);
    let code = parse_or_zero_range(&chars, 0, chars.len());
    assert(chars@.subrange(0, chars.len() as int) =~= code_str@);
    memory_type_text(code)
}

fn memory_type_text(code: u64) -> (res: String)
    ensures
        res@ == memory_type_name(code),
{
    if code == 20 {
        String::from_str("DDR")
    } else if code == 21 {
        String::from_str("DDR2")
    } else if code == 24 {
        String::from_str("DDR3")
    } else if code == 26 {
        String::from_str("DDR4")
    } else if code == 34 {
        String::from_str("DDR5")
    } else if code == 0 {
        String::new()
    } else {
        let mut s = String::from_str("Тип ");
        push_decimal(&mut s, code);
        s
    }
}

/// Names the form factor of an SMBIOS form factor code given as text
/// ("DIMM", "SODIMM", "SRIMM"; empty for 0 or no number; `FF <code>` otherwise).
pub fn decode_form_factor(code_str: &str) -> (res: String)
    ensures
        res@ == form_factor_name(parse_or_zero(code_str@)),
{
    let chars = chars_of(code_str);
    let code = parse_or_zero_range(&chars, 0, chars.len());
    assert(chars@.subrange(0, chars.len() as int) =~= code_str@);
    form_factor_text(code)
}

fn form_factor_text(code: u64) -> (res: String)
    ensures
        res@ == form_factor_name(code),
{
    if code == 8 {
        String::from_str("DIMM")
    } else if code == 12 {
        String::from_str("SODIMM")
    } else if code == 13 {
        String::from_str("SRIMM")
    } else if code == 0 {
        String::new()
    } else {
        let mut s = String::from_str("FF ");
        push_decimal(&mut s, code);
        s
    }
}


/// Static facts about the installed memory.
#[derive(Debug, Clone)]
pub struct MemoryStaticInfo {
    /// Memory type: "DDR3", "DDR4" and the like.
    pub memory_type: String,
    /// Speed in MT/s.
    pub speed_mts: u64,
    /// Form factor: "SODIMM", "DIMM" and the like.
    pub form_factor: String,
    /// Number of memory slots.
    pub slots_total: u64,
    /// Number of modules installed.
    pub slots_used: u64,
}

/// `MemoryStaticInfo` with its texts taken as character sequences.
pub struct MemoryInfoView {
    pub memory_type: Seq<char>,
    pub speed_mts: u64,
    pub form_factor: Seq<char>,
    pub slots_total: u64,
    pub slots_used: u64,
}

impl View for MemoryStaticInfo {
    type V = MemoryInfoView;

    open spec fn view(&self) -> MemoryInfoView {
        MemoryInfoView {
            memory_type: self.memory_type@,
            speed_mts: self.speed_mts,
            form_factor: self.form_factor@,
            slots_total: self.slots_total,
            slots_used: self.slots_used,
        }
    }
}

/// Nothing known: empty texts and zero counts.
pub open spec fn memory_info_empty() -> MemoryInfoView {
    MemoryInfoView {
        memory_type: Seq::empty(),
        speed_mts: 0,
        form_factor: Seq::empty(),
        slots_total: 0,
        slots_used: 0,
    }
}

impl Default for MemoryStaticInfo {
    fn default() -> (r: Self)
        ensures
            r@ == memory_info_empty(),
    {
        MemoryStaticInfo {
            memory_type: String::new(),
            speed_mts: 0,
            form_factor: String::new(),
            slots_total: 0,
            slots_used: 0,
        }
    }
}

/// What one line of the memory module listing changes.
pub open spec fn module_line_step(info: MemoryInfoView, line: Seq<char>) -> MemoryInfoView {
    match key_value(line) {
        Some((key, value)) => if key == "SMBIOSMemoryType"@ {
            MemoryInfoView { memory_type: memory_type_name(parse_or_zero(value)), ..info }
        } else if key == "Speed"@ {
            MemoryInfoView { speed_mts: parse_or_zero(value), ..info }
        } else if key == "FormFactor"@ {
            MemoryInfoView { form_factor: form_factor_name(parse_or_zero(value)), ..info }
        } else {
            info
        },
        None => info,
    }
}

/// What one line of the memory slot listing changes.
pub open spec fn array_line_step(info: MemoryInfoView, line: Seq<char>) -> MemoryInfoView {
    match key_value(line) {
        Some((key, value)) => if key == "MemoryDevices"@ {
            MemoryInfoView { slots_total: parse_or_zero(value), ..info }
        } else {
            info
        },
        None => info,
    }
}

/// `info` after the lines of a memory module listing, read in order.
pub open spec fn module_lines(info: MemoryInfoView, lines: Seq<Seq<char>>) -> MemoryInfoView
    decreases lines.len(),
{
    if lines.len() == 0 {
        info
    } else {
        module_line_step(module_lines(info, lines.drop_last()), lines.last())
    }
}

/// `info` after the lines of a memory slot listing, read in order.
pub open spec fn array_lines(info: MemoryInfoView, lines: Seq<Seq<char>>) -> MemoryInfoView
    decreases lines.len(),
{
    if lines.len() == 0 {
        info
    } else {
        array_line_step(array_lines(info, lines.drop_last()), lines.last())
    }
}

/// The memory facts from the three listings, each absent where its query failed:
/// the module listing (type, speed, form factor), the slot listing (number of
/// slots) and the module count (the whole text, trimmed, as a number).
pub open spec fn memory_info_of(
    modules: Option<Seq<char>>,
    slots: Option<Seq<char>>,
    count: Option<Seq<char>>,
) -> MemoryInfoView {
    let a = match modules {
        Some(t) => module_lines(memory_info_empty(), text_lines(t)),
        None => memory_info_empty(),
    };
    let b = match slots {
        Some(t) => array_lines(a, text_lines(t)),
        None => a,
    };
    match count {
        Some(t) => MemoryInfoView { slots_used: parse_or_zero(trim(t)), ..b },
        None => b,
    }
}

/// Each fact of a module listing comes from the last line with its key, and
/// stays as it was where no line has that key.
pub proof fn lemma_module_facts_from_last_lines(info: MemoryInfoView, lines: Seq<Seq<char>>)
    ensures
        module_lines(info, lines).memory_type == match last_value_for(lines, "SMBIOSMemoryType"@) {
            Some(v) => memory_type_name(parse_or_zero(v)),
            None => info.memory_type,
        },
        module_lines(info, lines).speed_mts == match last_value_for(lines, "Speed"@) {
            Some(v) => parse_or_zero(v),
            None => info.speed_mts,
        },
        module_lines(info, lines).form_factor == match last_value_for(lines, "FormFactor"@) {
            Some(v) => form_factor_name(parse_or_zero(v)),
            None => info.form_factor,
        },
        module_lines(info, lines).slots_total == info.slots_total,
        module_lines(info, lines).slots_used == info.slots_used,
    decreases lines.len(),
{
    reveal_strlit("SMBIOSMemoryType");
    reveal_strlit("Speed");
    reveal_strlit("FormFactor");
    assert("SMBIOSMemoryType"@.len() != "Speed"@.len());
    assert("SMBIOSMemoryType"@.len() != "FormFactor"@.len());
    assert("Speed"@.len() != "FormFactor"@.len());
    assert("SMBIOSMemoryType"@ != "Speed"@);
    assert("SMBIOSMemoryType"@ != "FormFactor"@);
    assert("Speed"@ != "FormFactor"@);
    if lines.len() > 0 {
        lemma_module_facts_from_last_lines(info, lines.drop_last());
    }
}

/// The number of slots comes from the last `MemoryDevices` line of a slot
/// listing, and stays as it was where there is none; nothing else changes.
pub proof fn lemma_slot_facts_from_last_lines(info: MemoryInfoView, lines: Seq<Seq<char>>)
    ensures
        array_lines(info, lines).slots_total == match last_value_for(lines, "MemoryDevices"@) {
            Some(v) => parse_or_zero(v),
            None => info.slots_total,
        },
        array_lines(info, lines).memory_type == info.memory_type,
        array_lines(info, lines).speed_mts == info.speed_mts,
        array_lines(info, lines).form_factor == info.form_factor,
        array_lines(info, lines).slots_used == info.slots_used,
    decreases lines.len(),
{
    if lines.len() > 0 {
        lemma_slot_facts_from_last_lines(info, lines.drop_last());
    }
}

impl MemoryStaticInfo {
    /// Takes in the lines of a memory module listing: `SMBIOSMemoryType`,
    /// `Speed` and `FormFactor`; a later line wins.
    pub fn apply_module_listing(&mut self, listing: &str)
        ensures
            final(self)@ == module_lines(old(self)@, text_lines(listing@)),
    {
        let chars = chars_of(listing);
        let ranges = line_ranges(&chars);
        let type_key = chars_of("SMBIOSMemoryType");
        let speed_key = chars_of("Speed");
        let form_key = chars_of("FormFactor");
        let ghost lines = text_lines(chars@);
        let ghost start = old(self)@;
        let mut i: usize = 0;
        while i < ranges.len()
            invariant
                i <= ranges.len(),
                ranges_within(ranges@, chars.len() as int),
                range_texts(chars@, ranges@) == lines,
                chars@ == listing@,
                lines == text_lines(listing@),
                type_key@ == "SMBIOSMemoryType"@,
                speed_key@ == "Speed"@,
                form_key@ == "FormFactor"@,
                self@ == module_lines(start, lines.take(i as int)),
            decreases ranges.len() - i,
        {
            let (lo, hi) = ranges[i];
            assert(ranges@[i as int].0 <= ranges@[i as int].1 <= chars.len());
            assert(lines[i as int] == chars@.subrange(lo as int, hi as int));
            assert(lines.take(i + 1).drop_last() =~= lines.take(i as int));
            match key_value_ranges(&chars, lo, hi) {
                Some(((ka, kb), (va, vb))) => {
                    if range_equals(&chars, ka, kb, &type_key) {
                        self.memory_type = memory_type_text(parse_or_zero_range(&chars, va, vb));
                    } else if range_equals(&chars, ka, kb, &speed_key) {
                        self.speed_mts = parse_or_zero_range(&chars, va, vb);
                    } else if range_equals(&chars, ka, kb, &form_key) {
                        self.form_factor = form_factor_text(parse_or_zero_range(&chars, va, vb));
                    }
                },
                None => {},
            }
            i += 1;
        }
        assert(lines.take(ranges.len() as int) =~= lines);
    }

    /// Takes in the lines of a memory slot listing: `MemoryDevices`; a later line wins.
    pub fn apply_slot_listing(&mut self, listing: &str)
        ensures
            final(self)@ == array_lines(old(self)@, text_lines(listing@)),
    {
        let chars = chars_of(listing);
        let ranges = line_ranges(&chars);
        let devices_key = chars_of("MemoryDevices");
        let ghost lines = text_lines(chars@);
        let ghost start = old(self)@;
        let mut i: usize = 0;
        while i < ranges.len()
            invariant
                i <= ranges.len(),
                ranges_within(ranges@, chars.len() as int),
                range_texts(chars@, ranges@) == lines,
                chars@ == listing@,
                lines == text_lines(listing@),
                devices_key@ == "MemoryDevices"@,
                self@ == array_lines(start, lines.take(i as int)),
            decreases ranges.len() - i,
        {
            let (lo, hi) = ranges[i];
            assert(ranges@[i as int].0 <= ranges@[i as int].1 <= chars.len());
            assert(lines[i as int] == chars@.subrange(lo as int, hi as int));
            assert(lines.take(i + 1).drop_last() =~= lines.take(i as int));
            match key_value_ranges(&chars, lo, hi) {
                Some(((ka, kb), (va, vb))) => {
                    if range_equals(&chars, ka, kb, &devices_key) {
                        self.slots_total = parse_or_zero_range(&chars, va, vb);
                    }
                },
                None => {},
            }
            i += 1;
        }
        assert(lines.take(ranges.len() as int) =~= lines);
    }

    /// Takes in the module count: the whole text, trimmed, read as a number (0 where it is none).
    pub fn apply_module_count(&mut self, count: &str)
        ensures
            final(self)@ == (MemoryInfoView { slots_used: parse_or_zero(trim(count@)), ..old(self)@ }),
    {
        let chars = chars_of(count);
        let (a, b) = trim_range(&chars, 0, chars.len());
        assert(chars@.subrange(0, chars.len() as int) =~= count@);
        self.slots_used = parse_or_zero_range(&chars, a, b);
    }
}

/// The memory facts from the outputs of the three memory queries, each `None`
/// where its query could not be run.
pub fn memory_static_info_from(modules: Option<&str>, slots: Option<&str>, count: Option<&str>) -> (info:
    MemoryStaticInfo)
    ensures
        info@ == memory_info_of(
            match modules {
                Some(t) => Some(t@),
                None => None,
            },
            match slots {
                Some(t) => Some(t@),
                None => None,
            },
            match count {
                Some(t) => Some(t@),
                None => None,
            },
        ),
{
    let mut info = MemoryStaticInfo::default();
    match modules {
        Some(t) => info.apply_module_listing(t),
        None => {},
    }
    match slots {
        Some(t) => info.apply_slot_listing(t),
        None => {},
    }
    match count {
        Some(t) => info.apply_module_count(t),
        None => {},
    }
    info
}


/// The volume letters of a letter-to-model table, in table order.
pub open spec fn model_keys(pairs: Seq<(char, Seq<char>)>) -> Seq<char> {
    pairs.map_values(|p: (char, Seq<char>)| p.0)
}

/// The table with `letter` mapped to `model`: the entry of `letter` replaced
/// where it has one, else a new entry at the end.
pub open spec fn upsert(pairs: Seq<(char, Seq<char>)>, letter: char, model: Seq<char>) -> Seq<
    (char, Seq<char>),
> {
    let i = first_index(model_keys(pairs), letter);
    if i < pairs.len() {
        pairs.update(i, (letter, model))
    } else {
        pairs.push((letter, model))
    }
}

/// The model that the table gives for `letter`, if any.
pub open spec fn model_of(pairs: Seq<(char, Seq<char>)>, letter: char) -> Option<Seq<char>> {
    let i = first_index(model_keys(pairs), letter);
    if i < pairs.len() {
        Some(pairs[i].1)
    } else {
        None
    }
}

/// What one `letter|model` line of the disk listing changes: the line is trimmed,
/// split at its first `'|'`, the first character of the trimmed left part is the
/// letter and the trimmed right part the model. Other lines change nothing.
pub open spec fn disk_line_step(pairs: Seq<(char, Seq<char>)>, line: Seq<char>) -> Seq<
    (char, Seq<char>),
> {
    let t = trim(line);
    let j = first_index(t, '|');
    if t.len() > 0 && j < t.len() {
        let letter = trim(t.take(j));
        if letter.len() > 0 {
            upsert(pairs, letter[0], trim(t.skip(j + 1)))
        } else {
            pairs
        }
    } else {
        pairs
    }
}

/// The letter-to-model table that the lines of a disk listing give, read in order.
pub open spec fn disk_models_of_lines(lines: Seq<Seq<char>>) -> Seq<(char, Seq<char>)>
    decreases lines.len(),
{
    if lines.len() == 0 {
        seq![]
    } else {
        disk_line_step(disk_models_of_lines(lines.drop_last()), lines.last())
    }
}

/// A letter-to-model table with its models taken as character sequences.
pub open spec fn models_view(v: Seq<(char, String)>) -> Seq<(char, Seq<char>)> {
    v.map_values(|p: (char, String)| (p.0, p.1@))
}

/// Maps `letter` to `model` in `table`.
fn upsert_model(table: &mut Vec<(char, String)>, letter: char, model: String)
    ensures
        models_view(final(table)@) == upsert(models_view(old(table)@), letter, model@),
{
    let ghost before = models_view(table@);
    let n = table.len();
    let mut i: usize = 0;
    while i < n && table[i].0 != letter
        invariant
            i <= n == table.len(),
            before == models_view(table@),
            forall|k: int| 0 <= k < i ==> table@[k].0 != letter,
        decreases n - i,
    {
        i += 1;
    }
    proof {
        let keys = model_keys(before);
        assert forall|k: int| 0 <= k < i implies keys[k] != letter by {
            assert(keys[k] == table@[k].0);
        }
        if i < n {
            assert(keys[i as int] == table@[i as int].0);
        }
        lemma_first_index_at(keys, letter, i as int);
    }
    let ghost model_view = model@;
    if i < n {
        table.set(i, (letter, model));
        assert(models_view(table@) =~= before.update(i as int, (letter, model_view)));
    } else {
        table.push((letter, model));
        assert(models_view(table@) =~= before.push((letter, model_view)));
    }
}

/// Reads the volume-letter-to-disk-model table from a listing of `letter|model`
/// lines (for instance `C|KINGSTON SA400S37480G`); a later line for a letter wins.
pub fn parse_disk_models(listing: &str) -> (res: Vec<(char, String)>)
    ensures
        models_view(res@) == disk_models_of_lines(text_lines(listing@)),
{
    let chars = chars_of(listing);
    let ranges = line_ranges(&chars);
    let ghost lines = text_lines(chars@);
    let mut table: Vec<(char, String)> = Vec::new();
    assert(models_view(table@) =~= Seq::<(char, Seq<char>)>::empty());
    let mut i: usize = 0;
    while i < ranges.len()
        invariant
            i <= ranges.len(),
            ranges_within(ranges@, chars.len() as int),
            range_texts(chars@, ranges@) == lines,
            chars@ == listing@,
            lines == text_lines(listing@),
            models_view(table@) == disk_models_of_lines(lines.take(i as int)),
        decreases ranges.len() - i,
    {
        let (lo, hi) = ranges[i];
        assert(ranges@[i as int].0 <= ranges@[i as int].1 <= chars.len());
        assert(lines[i as int] == chars@.subrange(lo as int, hi as int));
        assert(lines.take(i + 1).drop_last() =~= lines.take(i as int));
        let (a, b) = trim_range(&chars, lo, hi);
        let ghost t = chars@.subrange(a as int, b as int);
        let j = find_char(&chars, a, '|');
        let j = if j < b { j } else { b };
        proof {
            lemma_first_index(chars@.skip(a as int), '|');
            assert forall|k: int| 0 <= k < j - a implies t[k] != '|' by {
                assert(t[k] == chars@.skip(a as int)[k]);
            }
            if j < b {
                assert(t[j - a] == chars@.skip(a as int)[j - a]);
            }
            lemma_first_index_at(t, '|', j - a);
        }
        if a < b && j < b {
            let (la, lb) = trim_range(&chars, a, j);
            let (ma, mb) = trim_range(&chars, j + 1, b);
            proof {
                assert(t.take(j - a) =~= chars@.subrange(a as int, j as int));
                assert(t.skip(j - a + 1) =~= chars@.subrange(j + 1, b as int));
            }
            if la < lb {
                let letter = chars[la];
                assert(chars@.subrange(la as int, lb as int)[0] == letter);
                let model = String::from_str(listing.substring_char(ma, mb));
                upsert_model(&mut table, letter, model);
            }
        }
        i += 1;
    }
    assert(lines.take(ranges.len() as int) =~= lines);
    table
}

/// The model of the disk that holds the volume mounted at `mount`, looked up
/// by the first character of the mount point.
pub fn model_for_mount(table: &Vec<(char, String)>, mount: &str) -> (res: Option<String>)
    ensures
        res matches Some(m) ==> mount@.len() > 0 && model_of(models_view(table@), mount@[0]) == Some(
            m@,
        ),
        res is None ==> mount@.len() == 0 || model_of(models_view(table@), mount@[0]) is None,
{
    let chars = chars_of(mount);
    if chars.len() == 0 {
        return None;
    }
    let letter = chars[0];
    let ghost keys = model_keys(models_view(table@));
    let n = table.len();
    let mut i: usize = 0;
    while i < n && table[i].0 != letter
        invariant
            i <= n == table.len(),
            keys == model_keys(models_view(table@)),
            forall|k: int| 0 <= k < i ==> table@[k].0 != letter,
        decreases n - i,
    {
        i += 1;
    }
    proof {
        assert forall|k: int| 0 <= k < i implies keys[k] != letter by {
            assert(keys[k] == table@[k].0);
        }
        if i < n {
            assert(keys[i as int] == table@[i as int].0);
        }
        lemma_first_index_at(keys, letter, i as int);
    }
    if i < n {
        Some(table[i].1.clone())
    } else {
        None
    }
}


/// The entry that one line of the disk listing stands for, if any: the line
/// trimmed, split at its first `'|'`; the first character of the trimmed left
/// part is the letter, the trimmed right part the model. A line without `'|'`
/// or with nothing but white space before it stands for no entry.
pub open spec fn disk_line_entry(line: Seq<char>) -> Option<(char, Seq<char>)> {
    let t = trim(line);
    let j = first_index(t, '|');
    if j < t.len() && trim(t.take(j)).len() > 0 {
        Some((trim(t.take(j))[0], trim(t.skip(j + 1))))
    } else {
        None
    }
}

/// Whether a line of the disk listing stands for an entry of `letter`.
pub open spec fn line_maps_letter(line: Seq<char>, letter: char) -> bool {
    match disk_line_entry(line) {
        Some(e) => e.0 == letter,
        None => false,
    }
}

/// One line changes the table by mapping the letter of its entry to its model,
/// and changes nothing where it stands for no entry.
pub proof fn lemma_disk_line_step_entry(pairs: Seq<(char, Seq<char>)>, line: Seq<char>)
    ensures
        disk_line_step(pairs, line) == match disk_line_entry(line) {
            Some(e) => upsert(pairs, e.0, e.1),
            None => pairs,
        },
{
    let t = trim(line);
    lemma_first_index(t, '|');
}

/// Every entry of the listing is in the table: where the line `k` stands for
/// `letter` and `model`, and no later line stands for `letter`, the table gives
/// `model` for `letter`, whatever the other lines hold.
pub proof fn lemma_disk_models_last_entry_wins(
    lines: Seq<Seq<char>>,
    k: int,
    letter: char,
    model: Seq<char>,
)
    requires
        0 <= k < lines.len(),
        disk_line_entry(lines[k]) == Some((letter, model)),
        forall|j: int| k < j < lines.len() ==> !line_maps_letter(#[trigger] lines[j], letter),
    ensures
        model_of(disk_models_of_lines(lines), letter) == Some(model),
    decreases lines.len(),
{
    let n = lines.len() as int;
    let prev = lines.drop_last();
    let last = lines[n - 1];
    lemma_disk_line_step_entry(disk_models_of_lines(prev), last);
    if k == n - 1 {
        lemma_upsert_then_lookup(disk_models_of_lines(prev), letter, model, letter);
    } else {
        assert(prev[k] == lines[k]);
        assert forall|j: int| k < j < prev.len() implies !line_maps_letter(#[trigger] prev[j], letter) by {
            assert(prev[j] == lines[j]);
        }
        lemma_disk_models_last_entry_wins(prev, k, letter, model);
        assert(!line_maps_letter(lines[n - 1], letter));
        match disk_line_entry(last) {
            Some(e) => {
                lemma_upsert_then_lookup(disk_models_of_lines(prev), e.0, e.1, letter);
            },
            None => {},
        }
    }
}

/// A letter that no line of the listing stands for has no model in the table.
pub proof fn lemma_disk_models_absent_letter(lines: Seq<Seq<char>>, letter: char)
    requires
        forall|j: int| 0 <= j < lines.len() ==> !line_maps_letter(#[trigger] lines[j], letter),
    ensures
        model_of(disk_models_of_lines(lines), letter) is None,
    decreases lines.len(),
{
    if lines.len() == 0 {
        assert(model_keys(Seq::<(char, Seq<char>)>::empty()) =~= Seq::<char>::empty());
    } else {
        let n = lines.len() as int;
        let prev = lines.drop_last();
        let last = lines[n - 1];
        assert forall|j: int| 0 <= j < prev.len() implies !line_maps_letter(#[trigger] prev[j], letter) by {
            assert(prev[j] == lines[j]);
        }
        lemma_disk_models_absent_letter(prev, letter);
        lemma_disk_line_step_entry(disk_models_of_lines(prev), last);
        assert(!line_maps_letter(lines[n - 1], letter));
        match disk_line_entry(last) {
            Some(e) => {
                lemma_upsert_then_lookup(disk_models_of_lines(prev), e.0, e.1, letter);
            },
            None => {},
        }
    }
}

/// Distinct letters: no volume letter has two entries in the table.
pub open spec fn distinct_letters(pairs: Seq<(char, Seq<char>)>) -> bool {
    forall|i: int, j: int|
        0 <= i < j < pairs.len() ==> #[trigger] pairs[i].0 != #[trigger] pairs[j].0
}

/// A table read from a disk listing never holds a letter twice.
pub proof fn lemma_disk_models_distinct(lines: Seq<Seq<char>>)
    ensures
        distinct_letters(disk_models_of_lines(lines)),
    decreases lines.len(),
{
    if lines.len() > 0 {
        let prev = disk_models_of_lines(lines.drop_last());
        lemma_disk_models_distinct(lines.drop_last());
        let t = trim(lines.last());
        let j = first_index(t, '|');
        if t.len() > 0 && j < t.len() {
            let letter = trim(t.take(j));
            if letter.len() > 0 {
                lemma_upsert_distinct(prev, letter[0], trim(t.skip(j + 1)));
            }
        }
    }
}

/// Mapping a letter keeps the letters of a table distinct.
pub proof fn lemma_upsert_distinct(pairs: Seq<(char, Seq<char>)>, letter: char, model: Seq<char>)
    requires
        distinct_letters(pairs),
    ensures
        distinct_letters(upsert(pairs, letter, model)),
{
    let keys = model_keys(pairs);
    lemma_first_index(keys, letter);
    let i = first_index(keys, letter);
    let r = upsert(pairs, letter, model);
    if i < pairs.len() {
        assert(keys[i] == pairs[i].0);
        assert forall|a: int, b: int| 0 <= a < b < r.len() implies #[trigger] r[a].0
            != #[trigger] r[b].0 by {
            assert(pairs[a].0 != pairs[b].0);
        }
    } else {
        assert forall|a: int, b: int| 0 <= a < b < r.len() implies #[trigger] r[a].0
            != #[trigger] r[b].0 by {
            if b == pairs.len() {
                assert(keys[a] == pairs[a].0);
            } else {
                assert(pairs[a].0 != pairs[b].0);
            }
        }
    }
}

/// Reading back after a write: once `letter` is mapped to `model`, the table gives
/// `model` for `letter`, and for every other letter what it gave before.
pub proof fn lemma_upsert_then_lookup(
    pairs: Seq<(char, Seq<char>)>,
    letter: char,
    model: Seq<char>,
    other: char,
)
    ensures
        model_of(upsert(pairs, letter, model), letter) == Some(model),
        other != letter ==> model_of(upsert(pairs, letter, model), other) == model_of(pairs, other),
{
    let keys = model_keys(pairs);
    let r = upsert(pairs, letter, model);
    let rkeys = model_keys(r);
    lemma_first_index(keys, letter);
    lemma_first_index(keys, other);
    let i = first_index(keys, letter);
    let o = first_index(keys, other);
    if i < pairs.len() {
        assert(keys[i] == pairs[i].0);
        assert(rkeys =~= keys);
        if other != letter && o < pairs.len() {
            assert(keys[o] == pairs[o].0);
        }
    } else {
        assert(rkeys =~= keys.push(letter));
        assert forall|k: int| 0 <= k < i implies rkeys[k] != letter by {
            assert(rkeys[k] == keys[k]);
        }
        lemma_first_index_at(rkeys, letter, i);
        if other != letter {
            assert forall|k: int| 0 <= k < o implies rkeys[k] != other by {
                assert(rkeys[k] == keys[k]);
            }
            if o < pairs.len() {
                assert(rkeys[o] == keys[o]);
                assert(keys[o] == pairs[o].0);
                lemma_first_index_at(rkeys, other, o);
            } else {
                lemma_first_index_at(rkeys, other, o + 1);
            }
        }
    }
}


/// What `String::from_utf8_lossy` makes of `bytes`.
pub uninterp spec fn utf8_lossy(bytes: Seq<u8>) -> Seq<char>;

/// The text of a command's output, decoded by `String::from_utf8_lossy`: where
/// the bytes are valid UTF-8, the text they encode. What it gives for invalid
/// bytes (each invalid sequence replaced by U+FFFD) is left to `utf8_lossy`.
#[verifier::external_body]
fn output_text(bytes: &[u8]) -> (text: String)
    ensures
        text@ == utf8_lossy(bytes@),
        valid_utf8(bytes@) ==> text@ == decode_utf8(bytes@),
{
    String::from_utf8_lossy(bytes).into_owned()
}

/// The text of an optional command output: the text that the bytes encode
/// where they are valid UTF-8, else what `utf8_lossy` makes of them.
pub open spec fn output_view(stdout: Option<&[u8]>) -> Option<Seq<char>> {
    match stdout {
        Some(b) => Some(
            if valid_utf8(b@) {
                decode_utf8(b@)
            } else {
                utf8_lossy(b@)
            },
        ),
        None => None,
    }
}

/// The processor facts from the output of the processor query (`None` where
/// the query could not be run: then nothing is known).
pub fn cpu_static_info_from_output(stdout: Option<&[u8]>) -> (info: CpuStaticInfo)
    ensures
        info == match output_view(stdout) {
            Some(t) => cpu_info_of_lines(text_lines(t)),
            None => cpu_info_empty(),
        },
{
    match stdout {
        Some(b) => {
            let text = output_text(b);
            parse_cpu_static_info(text.as_str())
        },
        None => CpuStaticInfo::default(),
    }
}

/// The memory facts from the outputs of the module query, the slot query and
/// the module count query (each `None` where it could not be run).
pub fn memory_static_info_from_outputs(
    modules: Option<&[u8]>,
    slots: Option<&[u8]>,
    count: Option<&[u8]>,
) -> (info: MemoryStaticInfo)
    ensures
        info@ == memory_info_of(output_view(modules), output_view(slots), output_view(count)),
{
    let mut info = MemoryStaticInfo::default();
    match modules {
        Some(b) => {
            let text = output_text(b);
            info.apply_module_listing(text.as_str());
        },
        None => {},
    }
    match slots {
        Some(b) => {
            let text = output_text(b);
            info.apply_slot_listing(text.as_str());
        },
        None => {},
    }
    match count {
        Some(b) => {
            let text = output_text(b);
            info.apply_module_count(text.as_str());
        },
        None => {},
    }
    info
}

/// The volume-letter-to-disk-model table from the output of the disk query
/// (`None` where the query could not be run: then the table is empty).
pub fn disk_models_from_output(stdout: Option<&[u8]>) -> (table: Vec<(char, String)>)
    ensures
        models_view(table@) == match output_view(stdout) {
            Some(t) => disk_models_of_lines(text_lines(t)),
            None => Seq::empty(),
        },
{
    match stdout {
        Some(b) => {
            let text = output_text(b);
            parse_disk_models(text.as_str())
        },
        None => {
            let table: Vec<(char, String)> = Vec::new();
            assert(models_view(table@) =~= Seq::<(char, Seq<char>)>::empty());
            table
        },
    }
}


/// The processor name as shown: the brand of the first processor, trimmed,
/// or `CPU` where the system lists no processor.
pub open spec fn cpu_brand_text(brand: Option<Seq<char>>) -> Seq<char> {
    match brand {
        Some(b) => trim(b),
        None => "CPU"@,
    }
}

/// The processor name as shown, from the brand of the first processor if any.
pub fn cpu_brand(brand: Option<&str>) -> (res: String)
    ensures
        res@ == cpu_brand_text(
            match brand {
                Some(b) => Some(b@),
                None => None,
            },
        ),
{
    match brand {
        Some(b) => {
            let chars = chars_of(b);
            let (lo, hi) = trim_range(&chars, 0, chars.len());
            assert(chars@.subrange(0, chars.len() as int) =~= b@);
            String::from_str(b.substring_char(lo, hi))
        },
        None => String::from_str("CPU"),
    }
}

} // verus!
