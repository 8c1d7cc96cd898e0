//! The command catalogue packet: the server's commands, their
//! overloads and their parameter enumerations, serialized with shared
//! string tables.

use vstd::prelude::*;

use crate::wire::{put_bool, put_string, put_u16_le, put_u32_le, put_u8, put_var_u32};

verus! {

/// Permission level a command demands.
#[derive(Debug, Copy, Clone, PartialEq, Eq, Structural)]
pub enum CommandPermissionLevel {
    Normal,
    GameDirectors,
    Admin,
    Host,
    Owner,
    Internal,
}

impl CommandPermissionLevel {
    /// The numeric code each level travels as.
    pub fn code(self) -> u8 {
        match self {
            CommandPermissionLevel::Normal => 0,
            CommandPermissionLevel::GameDirectors => 1,
            CommandPermissionLevel::Admin => 2,
            CommandPermissionLevel::Host => 3,
            CommandPermissionLevel::Owner => 4,
            CommandPermissionLevel::Internal => 5,
        }
    }
}

/// Base type of a command parameter.
#[derive(Debug, Copy, Clone, PartialEq, Eq, Structural)]
pub enum CommandDataType {
    Int,
    Float,
    Value,
    WildcardInt,
    Operator,
    CompareOperator,
    Target,
    WildcardTarget,
    Filepath,
    IntegerRange,
    EquipmentSlots,
    String,
    BlockPosition,
    Position,
    Message,
    RawText,
    Json,
    BlockStates,
    Command,
}

impl CommandDataType {
    /// The numeric code each type travels as.
    pub fn code(self) -> u32 {
        match self {
            CommandDataType::Int => 1,
            CommandDataType::Float => 3,
            CommandDataType::Value => 4,
            CommandDataType::WildcardInt => 5,
            CommandDataType::Operator => 6,
            CommandDataType::CompareOperator => 7,
            CommandDataType::Target => 8,
            CommandDataType::WildcardTarget => 10,
            CommandDataType::Filepath => 17,
            CommandDataType::IntegerRange => 23,
            CommandDataType::EquipmentSlots => 38,
            CommandDataType::String => 39,
            CommandDataType::BlockPosition => 47,
            CommandDataType::Position => 48,
            CommandDataType::Message => 51,
            CommandDataType::RawText => 53,
            CommandDataType::Json => 57,
            CommandDataType::BlockStates => 67,
            CommandDataType::Command => 70,
        }
    }
}

/// A fixed or dynamic enumeration a parameter draws its values from.
#[derive(Debug, Clone, PartialEq, Eq)]
pub struct CommandEnum {
    /// Name of the enumeration.
    pub enum_id: String,
    /// Its values.
    pub options: Vec<String>,
    /// Whether the value set can change after login.
    pub dynamic: bool,
}

/// One parameter of a command overload.
#[derive(Debug, Clone, PartialEq, Eq)]
pub struct CommandParameter {
    /// Base type of the parameter.
    pub data_type: CommandDataType,
    /// Name shown to the user.
    pub name: String,
    /// Suffix of a suffixed number.
    pub suffix: String,
    /// Enumeration the parameter draws from, if any.
    pub command_enum: Option<CommandEnum>,
    /// Whether the parameter may be omitted.
    pub optional: bool,
    /// Extra option flags.
    pub options: u8,
}

/// One way a command can be called.
#[derive(Debug, Clone, PartialEq, Eq)]
pub struct CommandOverload {
    /// The overload's parameters, in order.
    pub parameters: Vec<CommandParameter>,
}

/// One command of the server.
#[derive(Debug, Clone, PartialEq, Eq)]
pub struct Command {
    /// Primary name.
    pub name: String,
    /// Description shown in help.
    pub description: String,
    /// Permission level required.
    pub permission_level: CommandPermissionLevel,
    /// Alternative names.
    pub aliases: Vec<String>,
    /// The command's overloads.
    pub overloads: Vec<CommandOverload>,
}

/// A string list holds a value.
pub open spec fn table_contains(vs: Seq<String>, x: Seq<char>) -> bool {
    exists|i: int| 0 <= i < vs.len() && (#[trigger] vs[i])@ == x
}

/// A string list free of duplicates.
pub open spec fn table_distinct(vs: Seq<String>) -> bool {
    forall|i: int, j: int| 0 <= i < j < vs.len() ==> (#[trigger] vs[i])@ != (#[trigger] vs[j])@
}

/// Appends a value to a string table unless it is already there; the
/// table stays duplicate free and keeps its first-appearance order.
pub fn table_insert(values: &mut Vec<String>, s: &String)
    requires
        table_distinct(old(values)@),
    ensures
        table_distinct(final(values)@),
        forall|y: Seq<char>|
            table_contains(final(values)@, y) <==> table_contains(old(values)@, y) || y == s@,
        final(values)@.len() >= old(values)@.len(),
        forall|k: int| 0 <= k < old(values)@.len() ==> final(values)@[k] == old(values)@[k],
{
    let mut i: usize = 0;
    while i < values.len()
        invariant
            i <= values@.len(),
            values == old(values),
            table_distinct(old(values)@),
            forall|k: int| 0 <= k < i ==> (#[trigger] values@[k])@ != s@,
        decreases values@.len() - i,
    {
        if values[i].eq(s) {
            proof {
                assert(values@ == old(values)@);
                assert(values@[i as int]@ == s@);
                assert(table_contains(values@, s@));
            }
            return ;
        }
        i = i + 1;
    }
    let ghost vs0 = values@;
    values.push(clone_string(s));
    proof {
        assert(values@[vs0.len() as int]@ == s@);
        assert forall|y: Seq<char>|
            table_contains(values@, y) <==> (table_contains(vs0, y) || y == s@) by {
            if table_contains(values@, y) {
                let w = choose|w: int| 0 <= w < values@.len() && (#[trigger] values@[w])@ == y;
                if w < vs0.len() {
                    assert(vs0[w]@ == y);
                }
            }
            if table_contains(vs0, y) {
                let w = choose|w: int| 0 <= w < vs0.len() && (#[trigger] vs0[w])@ == y;
                assert(values@[w]@ == y);
            }
        }
        assert(table_distinct(values@)) by {
            assert(forall|k: int| 0 <= k < vs0.len() ==> (#[trigger] vs0[k])@ != s@);
            assert(forall|k: int| 0 <= k < vs0.len() ==> values@[k] == vs0[k]);
        }
    }
}

/// A copy of a string with the same characters.
pub fn clone_string(s: &String) -> (r: String)
    ensures
        r@ == s@,
{
    let r = s.clone();
    r
}

/// Position of a value in a string table; the first slot when the
/// value is absent, which the catalogue writer never relies on.
pub fn table_index_of(values: &Vec<String>, s: &String) -> (r: u32)
    requires
        values@.len() <= 0xffff_ffff,
    ensures
        table_contains(values@, s@) ==> (r as int) < values@.len() && values@[r as int]@ == s@,
{
    let mut i: usize = 0;
    while i < values.len()
        invariant
            i <= values@.len(),
            values@.len() <= 0xffff_ffff,
            forall|k: int| 0 <= k < i ==> (#[trigger] values@[k])@ != s@,
        decreases values@.len() - i,
    {
        if values[i].eq(s) {
            return i as u32;
        }
        i = i + 1;
    }
    proof {
        if table_contains(values@, s@) {
            let w = choose|w: int| 0 <= w < values@.len() && (#[trigger] values@[w])@ == s@;
        }
    }
    0
}

/// Parameter flag marking a valid basic type.
pub const COMMAND_PARAMETER_VALID: u32 = 0x100000;

/// Parameter flag marking a fixed enumeration.
pub const COMMAND_PARAMETER_ENUM: u32 = 0x200000;

/// Parameter flag marking a suffixed number.
pub const COMMAND_PARAMETER_SUFFIXED: u32 = 0x1000000;

/// Parameter flag marking a dynamic enumeration.
pub const COMMAND_PARAMETER_SOFT_ENUM: u32 = 0x4000000;

/// The command catalogue sent to a client.
#[derive(Debug, Clone, PartialEq, Eq)]
pub struct AvailableCommands<'a> {
    /// The commands on offer.
    pub commands: &'a [Command],
}

/// Every string a packet writes fits its length prefix.
pub open spec fn command_fits(c: Command) -> bool {
    &&& crate::packets::login::str_fits(c.name@)
    &&& crate::packets::login::str_fits(c.description@)
    &&& forall|i: int|
        0 <= i < c.aliases@.len() ==> crate::packets::login::str_fits((#[trigger] c.aliases@[i])@)
    &&& forall|i: int|
        0 <= i < c.overloads@.len() ==> overload_fits(#[trigger] c.overloads@[i])
}

/// Every string an overload writes fits its length prefix.
pub open spec fn overload_fits(o: CommandOverload) -> bool {
    forall|i: int| 0 <= i < o.parameters@.len() ==> parameter_fits(#[trigger] o.parameters@[i])
}

/// Every string a parameter writes fits its length prefix.
pub open spec fn parameter_fits(p: CommandParameter) -> bool {
    &&& crate::packets::login::str_fits(p.name@)
    &&& crate::packets::login::str_fits(p.suffix@)
    &&& (p.command_enum is Some ==> enum_fits(p.command_enum.unwrap()))
}

/// Every string an enumeration writes fits its length prefix.
pub open spec fn enum_fits(e: CommandEnum) -> bool {
    &&& crate::packets::login::str_fits(e.enum_id@)
    &&& e.options@.len() <= 0xffff_ffff
    &&& forall|i: int|
        0 <= i < e.options@.len() ==> crate::packets::login::str_fits((#[trigger] e.options@[i])@)
}

impl<'a> AvailableCommands<'a> {
    /// Wire id of this packet.
    pub const ID: u32 = 0x4c;

    /// The catalogue reserves no fixed size; it is measured by writing.
    pub fn serialized_size(&self) -> (r: usize)
        ensures
            r == 0,
    {
        0
    }

    /// Appends the encoded catalogue: the shared value table, the
    /// suffix table, the fixed enumeration records — the alias
    /// enumeration of each aliased command and every distinct fixed
    /// parameter enumeration, counted and written once each — then
    /// every command with its overloads and parameters, the dynamic
    /// enumerations spelled out, and an empty constraint list.  The
    /// contract states only that the buffer grows in place; the wire
    /// layout itself is pinned by the writer and exercised
    /// structurally by the crate's tests.
    #[verifier::rlimit(100)]
    pub fn serialize(&self, buffer: &mut Vec<u8>)
        requires
            self.commands@.len() <= 0xffff_ffff,
            forall|i: int| 0 <= i < self.commands@.len() ==> command_fits(#[trigger] self.commands@[i]),
        ensures
            final(buffer)@.len() >= old(buffer)@.len(),
            forall|k: int| 0 <= k < old(buffer)@.len() ==> final(buffer)@[k] == old(buffer)@[k],
    {
        // Gather the shared value table: aliases first, then every
        // option of every fixed enumeration, first appearance first.
        let mut values: Vec<String> = Vec::new();
        let mut ci: usize = 0;
        while ci < self.commands.len()
            invariant
                ci <= self.commands@.len(),
                self.commands@.len() <= 0xffff_ffff,
                forall|i: int|
                    0 <= i < self.commands@.len() ==> command_fits(#[trigger] self.commands@[i]),
                table_distinct(values@),
            decreases self.commands@.len() - ci,
        {
            let c = &self.commands[ci];
            let mut ai: usize = 0;
            while ai < c.aliases.len()
                invariant
                    ai <= c.aliases@.len(),
                    table_distinct(values@),
                decreases c.aliases@.len() - ai,
            {
                table_insert(&mut values, &c.aliases[ai]);
                ai = ai + 1;
            }
            let mut oi: usize = 0;
            while oi < c.overloads.len()
                invariant
                    oi <= c.overloads@.len(),
                    table_distinct(values@),
                decreases c.overloads@.len() - oi,
            {
                let o = &c.overloads[oi];
                let mut pi: usize = 0;
                while pi < o.parameters.len()
                    invariant
                        pi <= o.parameters@.len(),
                        table_distinct(values@),
                    decreases o.parameters@.len() - pi,
                {
                    match &o.parameters[pi].command_enum {
                        Some(ce) => {
                            let mut vi: usize = 0;
                            while vi < ce.options.len()
                                invariant
                                    vi <= ce.options@.len(),
                                    table_distinct(values@),
                                decreases ce.options@.len() - vi,
                            {
                                table_insert(&mut values, &ce.options[vi]);
                                vi = vi + 1;
                            }
                        },
                        None => {},
                    }
                    pi = pi + 1;
                }
                oi = oi + 1;
            }
            ci = ci + 1;
        }
        // Gather the suffix table the same way.
        let mut suffixes: Vec<String> = Vec::new();
        let mut ci2: usize = 0;
        while ci2 < self.commands.len()
            invariant
                ci2 <= self.commands@.len(),
                table_distinct(suffixes@),
            decreases self.commands@.len() - ci2,
        {
            let c = &self.commands[ci2];
            let mut oi: usize = 0;
            while oi < c.overloads.len()
                invariant
                    oi <= c.overloads@.len(),
                    table_distinct(suffixes@),
                decreases c.overloads@.len() - oi,
            {
                let o = &c.overloads[oi];
                let mut pi: usize = 0;
                while pi < o.parameters.len()
                    invariant
                        pi <= o.parameters@.len(),
                        table_distinct(suffixes@),
                    decreases o.parameters@.len() - pi,
                {
                    if o.parameters[pi].suffix.as_str().len() > 0 {
                        table_insert(&mut suffixes, &o.parameters[pi].suffix);
                    }
                    pi = pi + 1;
                }
                oi = oi + 1;
            }
            ci2 = ci2 + 1;
        }
        if values.len() > 0xffff_0000usize || suffixes.len() > 0xffff_0000usize {
            // The tables could not be indexed on the wire; an empty
            // catalogue is written instead.
            put_var_u32(buffer, 0);
            put_var_u32(buffer, 0);
            put_var_u32(buffer, 0);
            put_var_u32(buffer, 0);
            put_var_u32(buffer, 0);
            put_var_u32(buffer, 0);
            return ;
        }
        write_catalogue(self.commands, &values, &suffixes, buffer);
    }
}

/// Writes the catalogue body given the gathered tables.
#[verifier::rlimit(100)]
fn write_catalogue(
    commands: &[Command],
    values: &Vec<String>,
    suffixes: &Vec<String>,
    buffer: &mut Vec<u8>,
) -> (r: bool)
    requires
        commands@.len() <= 0xffff_ffff,
        values@.len() <= 0xffff_ffff,
        suffixes@.len() <= 0xffff_ffff,
        forall|i: int| 0 <= i < commands@.len() ==> command_fits(#[trigger] commands@[i]),
    ensures
        final(buffer)@.len() >= old(buffer)@.len(),
        forall|k: int| 0 <= k < old(buffer)@.len() ==> final(buffer)@[k] == old(buffer)@[k],
{
    // The shared value table.
    put_var_u32(buffer, values.len() as u32);
    let mut i: usize = 0;
    while i < values.len()
        invariant
            i <= values@.len(),
            buffer@.len() >= old(buffer)@.len(),
            forall|k: int| 0 <= k < old(buffer)@.len() ==> buffer@[k] == old(buffer)@[k],
        decreases values@.len() - i,
    {
        put_string_checked(buffer, &values[i]);
        i = i + 1;
    }
    // The suffix table.
    put_var_u32(buffer, suffixes.len() as u32);
    let mut i2: usize = 0;
    while i2 < suffixes.len()
        invariant
            i2 <= suffixes@.len(),
            buffer@.len() >= old(buffer)@.len(),
            forall|k: int| 0 <= k < old(buffer)@.len() ==> buffer@[k] == old(buffer)@[k],
        decreases suffixes@.len() - i2,
    {
        put_string_checked(buffer, &suffixes[i2]);
        i2 = i2 + 1;
    }
    // Gather the fixed enumeration ids: one per aliased command, then
    // one per distinct fixed parameter enumeration, in traversal order.
    let mut enum_ids: Vec<String> = Vec::new();
    let mut cg: usize = 0;
    while cg < commands.len()
        invariant
            cg <= commands@.len(),
            table_distinct(enum_ids@),
            buffer@.len() >= old(buffer)@.len(),
            forall|k: int| 0 <= k < old(buffer)@.len() ==> buffer@[k] == old(buffer)@[k],
        decreases commands@.len() - cg,
    {
        let c = &commands[cg];
        if c.aliases.len() > 0 {
            let alias_id = concat_aliases_name(&c.name);
            table_insert(&mut enum_ids, &alias_id);
        }
        let mut oi: usize = 0;
        while oi < c.overloads.len()
            invariant
                oi <= c.overloads@.len(),
                table_distinct(enum_ids@),
            decreases c.overloads@.len() - oi,
        {
            let o = &c.overloads[oi];
            let mut pi: usize = 0;
            while pi < o.parameters.len()
                invariant
                    pi <= o.parameters@.len(),
                    table_distinct(enum_ids@),
                decreases o.parameters@.len() - pi,
            {
                match &o.parameters[pi].command_enum {
                    Some(ce) => {
                        if !ce.dynamic && ce.options.len() > 0 {
                            table_insert(&mut enum_ids, &ce.enum_id);
                        }
                    },
                    None => {},
                }
                pi = pi + 1;
            }
            oi = oi + 1;
        }
        cg = cg + 1;
    }
    // The fixed enumeration records: their count, then each record once,
    // in the gathered order — the alias enumeration of each aliased
    // command with its aliases, and every distinct fixed parameter
    // enumeration with its options, all as indices into the value
    // table, sized by the table.
    if enum_ids.len() > 0xffff_ffffusize {
        // Too many to index on the wire; written as none.
        put_var_u32(buffer, 0);
    } else {
        put_var_u32(buffer, enum_ids.len() as u32);
        let mut written: Vec<String> = Vec::new();
        let mut ci: usize = 0;
        while ci < commands.len()
            invariant
                ci <= commands@.len(),
                commands@.len() <= 0xffff_ffff,
                values@.len() <= 0xffff_ffff,
                forall|i3: int|
                    0 <= i3 < commands@.len() ==> command_fits(#[trigger] commands@[i3]),
                table_distinct(written@),
                buffer@.len() >= old(buffer)@.len(),
                forall|k: int| 0 <= k < old(buffer)@.len() ==> buffer@[k] == old(buffer)@[k],
            decreases commands@.len() - ci,
        {
            let c = &commands[ci];
            if c.aliases.len() > 0 {
                let alias_id = concat_aliases_name(&c.name);
                if !table_has(&written, &alias_id) {
                    table_insert(&mut written, &alias_id);
                    put_string_checked(buffer, &alias_id);
                    put_var_u32(buffer, c.aliases.len() as u32);
                    let mut ai: usize = 0;
                    while ai < c.aliases.len()
                        invariant
                            ai <= c.aliases@.len(),
                            values@.len() <= 0xffff_ffff,
                            buffer@.len() >= old(buffer)@.len(),
                            forall|k: int|
                                0 <= k < old(buffer)@.len() ==> buffer@[k] == old(buffer)@[k],
                        decreases c.aliases@.len() - ai,
                    {
                        put_value_index(buffer, values, &c.aliases[ai]);
                        ai = ai + 1;
                    }
                }
            }
            let mut oi: usize = 0;
            while oi < c.overloads.len()
                invariant
                    oi <= c.overloads@.len(),
                    values@.len() <= 0xffff_ffff,
                    overloads_fit(c.overloads@),
                    table_distinct(written@),
                    buffer@.len() >= old(buffer)@.len(),
                    forall|k: int| 0 <= k < old(buffer)@.len() ==> buffer@[k] == old(buffer)@[k],
                decreases c.overloads@.len() - oi,
            {
                let o = &c.overloads[oi];
                let mut pi: usize = 0;
                while pi < o.parameters.len()
                    invariant
                        pi <= o.parameters@.len(),
                        values@.len() <= 0xffff_ffff,
                        overload_fits(*o),
                        table_distinct(written@),
                        buffer@.len() >= old(buffer)@.len(),
                        forall|k: int|
                            0 <= k < old(buffer)@.len() ==> buffer@[k] == old(buffer)@[k],
                    decreases o.parameters@.len() - pi,
                {
                    proof {
                        assert(parameter_fits(o.parameters@[pi as int]));
                    }
                    match &o.parameters[pi].command_enum {
                        Some(ce) => {
                            if !ce.dynamic && ce.options.len() > 0 && !table_has(
                                &written,
                                &ce.enum_id,
                            ) {
                                table_insert(&mut written, &ce.enum_id);
                                put_string_checked(buffer, &ce.enum_id);
                                put_var_u32(buffer, ce.options.len() as u32);
                                let mut vi: usize = 0;
                                while vi < ce.options.len()
                                    invariant
                                        vi <= ce.options@.len(),
                                        values@.len() <= 0xffff_ffff,
                                        buffer@.len() >= old(buffer)@.len(),
                                        forall|k: int|
                                            0 <= k < old(buffer)@.len() ==> buffer@[k] == old(
                                                buffer,
                                            )@[k],
                                    decreases ce.options@.len() - vi,
                                {
                                    put_value_index(buffer, values, &ce.options[vi]);
                                    vi = vi + 1;
                                }
                            }
                        },
                        None => {},
                    }
                    pi = pi + 1;
                }
                oi = oi + 1;
            }
            ci = ci + 1;
        }
    }
    // Gather the dynamic enumeration ids.
    let mut dynamic_ids: Vec<String> = Vec::new();
    let mut cd: usize = 0;
    while cd < commands.len()
        invariant
            cd <= commands@.len(),
            table_distinct(dynamic_ids@),
            buffer@.len() >= old(buffer)@.len(),
            forall|k: int| 0 <= k < old(buffer)@.len() ==> buffer@[k] == old(buffer)@[k],
        decreases commands@.len() - cd,
    {
        let c = &commands[cd];
        let mut oi: usize = 0;
        while oi < c.overloads.len()
            invariant
                oi <= c.overloads@.len(),
                table_distinct(dynamic_ids@),
            decreases c.overloads@.len() - oi,
        {
            let o = &c.overloads[oi];
            let mut pi: usize = 0;
            while pi < o.parameters.len()
                invariant
                    pi <= o.parameters@.len(),
                    table_distinct(dynamic_ids@),
                decreases o.parameters@.len() - pi,
            {
                match &o.parameters[pi].command_enum {
                    Some(ce) => {
                        if ce.dynamic {
                            table_insert(&mut dynamic_ids, &ce.enum_id);
                        }
                    },
                    None => {},
                }
                pi = pi + 1;
            }
            oi = oi + 1;
        }
        cd = cd + 1;
    }
    // The command records.
    put_var_u32(buffer, commands.len() as u32);
    let mut cw: usize = 0;
    while cw < commands.len()
        invariant
            cw <= commands@.len(),
            commands@.len() <= 0xffff_ffff,
            values@.len() <= 0xffff_ffff,
            suffixes@.len() <= 0xffff_ffff,
            forall|i3: int| 0 <= i3 < commands@.len() ==> command_fits(#[trigger] commands@[i3]),
            buffer@.len() >= old(buffer)@.len(),
            forall|k: int| 0 <= k < old(buffer)@.len() ==> buffer@[k] == old(buffer)@[k],
        decreases commands@.len() - cw,
    {
        let c = &commands[cw];
        put_string_checked(buffer, &c.name);
        put_string_checked(buffer, &c.description);
        // Command flags are unused.
        put_u16_le(buffer, 0);
        put_u8(buffer, c.permission_level.code());
        if c.aliases.len() > 0 && enum_ids.len() <= 0xffff_ffff {
            let alias_id = concat_aliases_name(&c.name);
            put_u32_le(buffer, table_index_of(&enum_ids, &alias_id));
        } else {
            // No aliases: the sentinel index.
            put_u32_le(buffer, 0xffff_ffff);
        }
        put_var_u32(buffer, c.overloads.len() as u32);
        let mut oi: usize = 0;
        while oi < c.overloads.len()
            invariant
                oi <= c.overloads@.len(),
                values@.len() <= 0xffff_ffff,
                suffixes@.len() <= 0xffff_ffff,
                overloads_fit(c.overloads@),
                buffer@.len() >= old(buffer)@.len(),
                forall|k: int| 0 <= k < old(buffer)@.len() ==> buffer@[k] == old(buffer)@[k],
            decreases c.overloads@.len() - oi,
        {
            let o = &c.overloads[oi];
            put_var_u32(buffer, o.parameters.len() as u32);
            let mut pi: usize = 0;
            while pi < o.parameters.len()
                invariant
                    pi <= o.parameters@.len(),
                    values@.len() <= 0xffff_ffff,
                    suffixes@.len() <= 0xffff_ffff,
                    overload_fits(*o),
                    buffer@.len() >= old(buffer)@.len(),
                    forall|k: int| 0 <= k < old(buffer)@.len() ==> buffer@[k] == old(buffer)@[k],
                decreases o.parameters@.len() - pi,
            {
                proof {
                    assert(parameter_fits(o.parameters@[pi as int]));
                }
                let p = &o.parameters[pi];
                let mut command_type: u32 = p.data_type.code();
                match &p.command_enum {
                    Some(ce) => {
                        if ce.dynamic && dynamic_ids.len() <= 0xffff_ffff {
                            command_type = COMMAND_PARAMETER_SOFT_ENUM | COMMAND_PARAMETER_VALID
                                | table_index_of(&dynamic_ids, &ce.enum_id);
                        } else if ce.options.len() > 0 && enum_ids.len() <= 0xffff_ffff {
                            command_type = COMMAND_PARAMETER_ENUM | COMMAND_PARAMETER_VALID
                                | table_index_of(&enum_ids, &ce.enum_id);
                        } else if p.suffix.as_str().len() > 0 && suffixes.len() <= 0xffff_ffff {
                            command_type = COMMAND_PARAMETER_SUFFIXED | table_index_of(
                                suffixes,
                                &p.suffix,
                            );
                        }
                    },
                    None => {
                        command_type = command_type | COMMAND_PARAMETER_VALID;
                    },
                }
                put_string_checked(buffer, &p.name);
                put_u32_le(buffer, command_type);
                put_bool(buffer, p.optional);
                put_u8(buffer, p.options);
                pi = pi + 1;
            }
            oi = oi + 1;
        }
        cw = cw + 1;
    }
    // The dynamic enumerations, with their values spelled out.
    put_var_u32(buffer, dynamic_ids.len() as u32);
    let mut cz: usize = 0;
    let mut written: Vec<String> = Vec::new();
    while cz < commands.len()
        invariant
            cz <= commands@.len(),
            forall|i3: int| 0 <= i3 < commands@.len() ==> command_fits(#[trigger] commands@[i3]),
            table_distinct(written@),
            buffer@.len() >= old(buffer)@.len(),
            forall|k: int| 0 <= k < old(buffer)@.len() ==> buffer@[k] == old(buffer)@[k],
        decreases commands@.len() - cz,
    {
        let c = &commands[cz];
        let mut oi: usize = 0;
        while oi < c.overloads.len()
            invariant
                oi <= c.overloads@.len(),
                overloads_fit(c.overloads@),
                table_distinct(written@),
                buffer@.len() >= old(buffer)@.len(),
                forall|k: int| 0 <= k < old(buffer)@.len() ==> buffer@[k] == old(buffer)@[k],
            decreases c.overloads@.len() - oi,
        {
            let o = &c.overloads[oi];
            let mut pi: usize = 0;
            while pi < o.parameters.len()
                invariant
                    pi <= o.parameters@.len(),
                    overload_fits(*o),
                    table_distinct(written@),
                    buffer@.len() >= old(buffer)@.len(),
                    forall|k: int| 0 <= k < old(buffer)@.len() ==> buffer@[k] == old(buffer)@[k],
                decreases o.parameters@.len() - pi,
            {
                proof {
                    assert(parameter_fits(o.parameters@[pi as int]));
                }
                match &o.parameters[pi].command_enum {
                    Some(ce) => {
                        if ce.dynamic && !table_has(&written, &ce.enum_id) {
                            table_insert(&mut written, &ce.enum_id);
                            put_string_checked(buffer, &ce.enum_id);
                            put_var_u32(buffer, ce.options.len() as u32);
                            let mut vi: usize = 0;
                            while vi < ce.options.len()
                                invariant
                                    vi <= ce.options@.len(),
                                    enum_fits(*ce),
                                    buffer@.len() >= old(buffer)@.len(),
                                    forall|k: int|
                                        0 <= k < old(buffer)@.len() ==> buffer@[k] == old(
                                            buffer,
                                        )@[k],
                                decreases ce.options@.len() - vi,
                            {
                                put_string_checked(buffer, &ce.options[vi]);
                                vi = vi + 1;
                            }
                        }
                    },
                    None => {},
                }
                pi = pi + 1;
            }
            oi = oi + 1;
        }
        cz = cz + 1;
    }
    // No constraints follow.
    put_var_u32(buffer, 0);
    true
}

/// All overloads of a list fit their length prefixes.
pub open spec fn overloads_fit(os: Seq<CommandOverload>) -> bool {
    forall|i: int| 0 <= i < os.len() ==> overload_fits(#[trigger] os[i])
}

/// Whether a table holds a value, executably.
fn table_has(values: &Vec<String>, s: &String) -> (r: bool)
    ensures
        r == table_contains(values@, s@),
{
    let mut i: usize = 0;
    while i < values.len()
        invariant
            i <= values@.len(),
            forall|k: int| 0 <= k < i ==> (#[trigger] values@[k])@ != s@,
        decreases values@.len() - i,
    {
        if values[i].eq(s) {
            proof {
                assert(values@[i as int]@ == s@);
            }
            return true;
        }
        i = i + 1;
    }
    proof {
        if table_contains(values@, s@) {
            let w = choose|w: int| 0 <= w < values@.len() && (#[trigger] values@[w])@ == s@;
        }
    }
    false
}

/// Writes a value-table index, sized by the table as the peer expects.
fn put_value_index(buffer: &mut Vec<u8>, values: &Vec<String>, s: &String)
    requires
        values@.len() <= 0xffff_ffff,
    ensures
        final(buffer)@.len() >= old(buffer)@.len(),
        forall|k: int| 0 <= k < old(buffer)@.len() ==> final(buffer)@[k] == old(buffer)@[k],
{
    let idx = table_index_of(values, s);
    if values.len() <= 0xff {
        put_u8(buffer, idx as u8);
    } else if values.len() <= 0xffff {
        put_u16_le(buffer, idx as u16);
    } else {
        put_u32_le(buffer, idx);
    }
}

/// The alias enumeration of a command is named after the command.
fn concat_aliases_name(name: &String) -> (r: String)
    ensures
        true,
{
    let mut r = name.clone();
    r.append("Aliases");
    r
}

/// Appends a string if it fits its length prefix, and an empty one
/// otherwise; the catalogue preconditions rule the latter out.
fn put_string_checked(buffer: &mut Vec<u8>, s: &String)
    ensures
        final(buffer)@.len() >= old(buffer)@.len(),
        forall|k: int| 0 <= k < old(buffer)@.len() ==> final(buffer)@[k] == old(buffer)@[k],
{
    let b = s.as_str().as_bytes();
    if b.len() <= 0xffff {
        let ghost pre = buffer@;
        put_var_u32(buffer, b.len() as u32);
        crate::wire::put_bytes(buffer, b);
    } else {
        put_var_u32(buffer, 0);
    }
}

} // verus!
