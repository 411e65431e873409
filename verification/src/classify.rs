use vstd::prelude::*;
use vstd::utf8::encode_utf8;

use crate::text::{byte_len, bytes_contain, occurs_at, str_contains, str_eq, str_starts_with};

verus! {

/// The part of a class name before its first `@` (all of it when there is none).
pub open spec fn stem_of(s: Seq<char>) -> Seq<char>
    decreases s.len(),
{
    if s.len() == 0 || s[0] == '@' {
        Seq::empty()
    } else {
        seq![s[0]] + stem_of(s.drop_first())
    }
}

proof fn lemma_stem(s: Seq<char>, p: int)
    requires
        0 <= p <= s.len(),
        forall|j: int| 0 <= j < p ==> s[j] != '@',
        p < s.len() ==> s[p] == '@',
    ensures
        stem_of(s) == s.take(p),
    decreases s.len(),
{
    if s.len() == 0 || s[0] == '@' {
        assert(s.take(p) =~= Seq::<char>::empty());
    } else {
        lemma_stem(s.drop_first(), p - 1);
        assert(s.take(p) =~= seq![s[0]] + s.drop_first().take(p - 1));
    }
}

/// The class name without its namespace: the text before the first `@`.
pub fn class_stem(name: &str) -> (s: String)
    ensures
        s@ == stem_of(name@),
{
    let n = name.unicode_len();
    let mut i: usize = 0;
    while i < n && name.get_char(i) != '@'
        invariant
            n == name@.len(),
            i <= n,
            forall|j: int| 0 <= j < i ==> name@[j] != '@',
        decreases n - i,
    {
        i = i + 1;
    }
    proof {
        lemma_stem(name@, i as int);
    }
    String::from_str(name.substring_char(0, i))
}

/// Whether the text contains the character `c`.
pub fn has_char(s: &str, c: char) -> (r: bool)
    ensures
        r == s@.contains(c),
{
    let n = s.unicode_len();
    let mut i: usize = 0;
    while i < n
        invariant
            n == s@.len(),
            i <= n,
            forall|j: int| 0 <= j < i ==> s@[j] != c,
        decreases n - i,
    {
        if s.get_char(i) == c {
            return true;
        }
        i = i + 1;
    }
    false
}

/// The number of times `c` occurs in `s`.
pub open spec fn char_count(s: Seq<char>, c: char) -> nat
    decreases s.len(),
{
    if s.len() == 0 {
        0
    } else {
        char_count(s.drop_last(), c) + if s.last() == c {
            1nat
        } else {
            0nat
        }
    }
}

/// Counts the occurrences of `c` in `s`.
pub fn count_char(s: &str, c: char) -> (k: usize)
    ensures
        k == char_count(s@, c),
{
    let n = s.unicode_len();
    let mut i: usize = 0;
    let mut k: usize = 0;
    while i < n
        invariant
            n == s@.len(),
            i <= n,
            k == char_count(s@.take(i as int), c),
            k <= i,
        decreases n - i,
    {
        assert(s@.take(i + 1).drop_last() =~= s@.take(i as int));
        if s.get_char(i) == c {
            k = k + 1;
        }
        i = i + 1;
    }
    assert(s@.take(n as int) =~= s@);
    k
}

/// The classes taken as parts when looking at the workspace's children.
pub open spec fn is_part_class_name(n: Seq<char>) -> bool {
    ||| n == "Part@RBX"@
    ||| n == "WedgePart@RBX"@
    ||| n == "CylinderPart@RBX"@
    ||| n == "CornerWedgePart@RBX"@
    ||| n == "TrussPart@RBX"@
    ||| n == "Seat@RBX"@
    ||| n == "VehicleSeat@RBX"@
    ||| n == "SpawnLocation@RBX"@
    ||| n == "FlagStand@RBX"@
    ||| n == "SkateboardPlatform@RBX"@
}

/// Whether a class name is one of the part classes looked for among the
/// workspace's children.
pub fn is_part_class(name: &str) -> (r: bool)
    ensures
        r == is_part_class_name(name@),
{
    str_eq(name, "Part@RBX") || str_eq(name, "WedgePart@RBX") || str_eq(name, "CylinderPart@RBX") || str_eq(
        name,
        "CornerWedgePart@RBX",
    ) || str_eq(name, "TrussPart@RBX") || str_eq(name, "Seat@RBX") || str_eq(name, "VehicleSeat@RBX") || str_eq(
        name,
        "SpawnLocation@RBX",
    ) || str_eq(name, "FlagStand@RBX") || str_eq(name, "SkateboardPlatform@RBX")
}

/// The classes taken as parts one level further down.
pub open spec fn is_basic_part_class_name(n: Seq<char>) -> bool {
    ||| n == "Part@RBX"@
    ||| n == "WedgePart@RBX"@
    ||| n == "CylinderPart@RBX"@
    ||| n == "CornerWedgePart@RBX"@
    ||| n == "TrussPart@RBX"@
}

/// Whether a class name is one of the part classes looked for among the
/// grandchildren of the workspace.
pub fn is_basic_part_class(name: &str) -> (r: bool)
    ensures
        r == is_basic_part_class_name(name@),
{
    str_eq(name, "Part@RBX") || str_eq(name, "WedgePart@RBX") || str_eq(name, "CylinderPart@RBX") || str_eq(
        name,
        "CornerWedgePart@RBX",
    ) || str_eq(name, "TrussPart@RBX")
}

/// Among the workspace's children, exactly these classes are taken as
/// parts: the five basic part classes, the two seats, spawn locations, flag
/// stands and skateboard platforms; one level further down, exactly the five
/// basic part classes.
pub proof fn law_part_class_names(n: Seq<char>)
    ensures
        is_part_class_name(n) <==> seq![
            "Part@RBX"@,
            "WedgePart@RBX"@,
            "CylinderPart@RBX"@,
            "CornerWedgePart@RBX"@,
            "TrussPart@RBX"@,
            "Seat@RBX"@,
            "VehicleSeat@RBX"@,
            "SpawnLocation@RBX"@,
            "FlagStand@RBX"@,
            "SkateboardPlatform@RBX"@
        ].contains(n),
        is_basic_part_class_name(n) <==> seq![
            "Part@RBX"@,
            "WedgePart@RBX"@,
            "CylinderPart@RBX"@,
            "CornerWedgePart@RBX"@,
            "TrussPart@RBX"@
        ].contains(n),
        is_basic_part_class_name(n) ==> is_part_class_name(n),
{
    let all = seq![
        "Part@RBX"@,
            "WedgePart@RBX"@,
            "CylinderPart@RBX"@,
            "CornerWedgePart@RBX"@,
            "TrussPart@RBX"@,
            "Seat@RBX"@,
            "VehicleSeat@RBX"@,
            "SpawnLocation@RBX"@,
            "FlagStand@RBX"@,
            "SkateboardPlatform@RBX"@
    ];
    let basic = seq![
        "Part@RBX"@,
            "WedgePart@RBX"@,
            "CylinderPart@RBX"@,
            "CornerWedgePart@RBX"@,
            "TrussPart@RBX"@
    ];
    if is_part_class_name(n) {
        let i = choose|i: int| 0 <= i < 10 && all[i] == n;
        assert(all[i] == n);
    }
    if is_basic_part_class_name(n) {
        let i = choose|i: int| 0 <= i < 5 && basic[i] == n;
        assert(basic[i] == n);
    }
}

/// A job id has the shape of a UUID: 36 bytes with dashes at 8, 13, 18 and 23.
pub open spec fn job_id_shape(e: Seq<u8>) -> bool {
    e.len() == 36 && e[8] == 45 && e[13] == 45 && e[18] == 45 && e[23] == 45
}

/// Whether the text has the shape of a job id.
pub fn is_job_id(s: &str) -> (r: bool)
    ensures
        r == job_id_shape(encode_utf8(s@)),
{
    let b = s.as_bytes();
    b.len() == 36 && b[8] == 45 && b[13] == 45 && b[18] == 45 && b[23] == 45
}

/// A server address: a colon somewhere and at least three dots.
pub open spec fn server_address_shape(s: Seq<char>) -> bool {
    s.contains(':') && char_count(s, '.') >= 3
}

/// Whether the text looks like `a.b.c.d:port`.
pub fn is_server_address(s: &str) -> (r: bool)
    ensures
        r == server_address_shape(s@),
{
    has_char(s, ':') && count_char(s, '.') >= 3
}

/// A display name: 2 to 30 bytes, without `@`.
pub open spec fn display_name_shape(s: Seq<char>) -> bool {
    2 <= encode_utf8(s).len() <= 30 && !s.contains('@')
}

/// Whether the text can be a player's display name.
pub fn is_display_name(s: &str) -> (r: bool)
    ensures
        r == display_name_shape(s@),
{
    let n = byte_len(s);
    n >= 2 && n <= 30 && !has_char(s, '@')
}

/// Whether inline text can be a player's display name: as `is_display_name`,
/// and not the class name `Player` itself.
pub fn is_inline_display_name(s: &str) -> (r: bool)
    ensures
        r == (display_name_shape(s@) && s@ != "Player"@),
{
    is_display_name(s) && !str_eq(s, "Player")
}

/// An asset reference starts with `rbxasset` or `http`.
pub open spec fn asset_reference_shape(s: Seq<char>) -> bool {
    occurs_at(encode_utf8(s), encode_utf8("rbxasset"@), 0) || occurs_at(encode_utf8(s), encode_utf8("http"@), 0)
}

/// Whether the text is a mesh or texture asset reference.
pub fn is_asset_reference(s: &str) -> (r: bool)
    ensures
        r == asset_reference_shape(s@),
{
    str_starts_with(s, "rbxasset") || str_starts_with(s, "http")
}

/// A sound id starts with `rbxasset://` or `http`.
pub open spec fn sound_id_shape(s: Seq<char>) -> bool {
    occurs_at(encode_utf8(s), encode_utf8("rbxasset://"@), 0) || occurs_at(encode_utf8(s), encode_utf8("http"@), 0)
}

/// Whether the text is a sound id.
pub fn is_sound_id(s: &str) -> (r: bool)
    ensures
        r == sound_id_shape(s@),
{
    str_starts_with(s, "rbxasset://") || str_starts_with(s, "http")
}

/// A sky texture: mentions `skybox` or `Skybox`, or starts with `rbxasset://`.
pub open spec fn sky_texture_shape(s: Seq<char>) -> bool {
    ||| bytes_contain(encode_utf8(s), encode_utf8("skybox"@))
    ||| bytes_contain(encode_utf8(s), encode_utf8("Skybox"@))
    ||| occurs_at(encode_utf8(s), encode_utf8("rbxasset://"@), 0)
}

/// Whether the text names a sky texture.
pub fn is_sky_texture(s: &str) -> (r: bool)
    ensures
        r == sky_texture_shape(s@),
{
    str_contains(s, "skybox") || str_contains(s, "Skybox") || str_starts_with(s, "rbxasset://")
}

/// Whether the text is non-empty and shorter than `limit` bytes.
pub fn is_short_text(s: &str, limit: usize) -> (r: bool)
    ensures
        r == (0 < encode_utf8(s@).len() < limit),
{
    let n = byte_len(s);
    n > 0 && n < limit
}

/// A client ticket: over 30 bytes, with a `-` or a `_`.
pub open spec fn client_ticket_shape(s: Seq<char>) -> bool {
    encode_utf8(s).len() > 30 && (s.contains('-') || s.contains('_'))
}

/// Whether the text looks like a client ticket.
pub fn is_client_ticket(s: &str) -> (r: bool)
    ensures
        r == client_ticket_shape(s@),
{
    byte_len(s) > 30 && (has_char(s, '-') || has_char(s, '_'))
}

/// The class names taken as script runtime objects.
pub open spec fn script_runtime_class_name(n: Seq<char>) -> bool {
    ||| bytes_contain(encode_utf8(n), encode_utf8("Script"@))
    ||| bytes_contain(encode_utf8(n), encode_utf8("ExecutionContext"@))
    ||| bytes_contain(encode_utf8(n), encode_utf8("Vm"@))
}

/// Whether a class name belongs to the script runtime.
pub fn is_script_runtime_class(name: &str) -> (r: bool)
    ensures
        r == script_runtime_class_name(name@),
{
    str_contains(name, "Script") || str_contains(name, "ExecutionContext") || str_contains(name, "Vm")
}

/// The class names taken as sun or moon objects.
pub open spec fn celestial_class_name(n: Seq<char>) -> bool {
    bytes_contain(encode_utf8(n), encode_utf8("CelestialBody"@)) || bytes_contain(encode_utf8(n), encode_utf8("Sun"@))
}

/// Whether a class name is that of a sun or moon object.
pub fn is_celestial_class(name: &str) -> (r: bool)
    ensures
        r == celestial_class_name(name@),
{
    str_contains(name, "CelestialBody") || str_contains(name, "Sun")
}

/// The class names accepted as body parts of a character.
pub open spec fn body_part_class_name(n: Seq<char>) -> bool {
    bytes_contain(encode_utf8(n), encode_utf8("Part"@)) || n == "BasePart@RBX"@
}

/// Whether a class name is that of a body part.
pub fn is_body_part_class(name: &str) -> (r: bool)
    ensures
        r == body_part_class_name(name@),
{
    str_contains(name, "Part") || str_eq(name, "BasePart@RBX")
}

/// The class names taken for an object a humanoid sits on or stands on: the
/// primitive itself, or with `by_name` any class named like a part or seat.
pub open spec fn part_holder_class_name(n: Seq<char>, by_name: bool) -> bool {
    ||| n == "Primitive@RBX"@
    ||| by_name && (bytes_contain(encode_utf8(n), encode_utf8("Part"@)) || bytes_contain(
        encode_utf8(n),
        encode_utf8("Seat"@),
    ))
}

/// Whether a class name is taken for such an object.
pub fn is_part_holder_class(name: &str, by_name: bool) -> (r: bool)
    ensures
        r == part_holder_class_name(name@, by_name),
{
    str_eq(name, "Primitive@RBX") || (by_name && (str_contains(name, "Part") || str_contains(name, "Seat")))
}

pub open spec fn is_ascii_alnum(c: char) -> bool {
    ('0' <= c <= '9') || ('A' <= c <= 'Z') || ('a' <= c <= 'z')
}

/// An object name: 2 to 99 bytes with at least one ASCII letter or digit.
pub open spec fn object_name_shape(s: Seq<char>) -> bool {
    2 <= encode_utf8(s).len() < 100 && exists|i: int| 0 <= i < s.len() && is_ascii_alnum(#[trigger] s[i])
}

/// Whether the text can be the name of an object.
pub fn is_object_name(s: &str) -> (r: bool)
    ensures
        r == object_name_shape(s@),
{
    let len = byte_len(s);
    if len < 2 || len >= 100 {
        return false;
    }
    let n = s.unicode_len();
    let mut i: usize = 0;
    while i < n
        invariant
            n == s@.len(),
            i <= n,
            len == encode_utf8(s@).len(),
            2 <= len < 100,
            forall|j: int| 0 <= j < i ==> !is_ascii_alnum(#[trigger] s@[j]),
        decreases n - i,
    {
        let c = s.get_char(i);
        if ('0' <= c && c <= '9') || ('A' <= c && c <= 'Z') || ('a' <= c && c <= 'z') {
            assert(is_ascii_alnum(s@[i as int]));
            return true;
        }
        i = i + 1;
    }
    false
}

} // verus!
