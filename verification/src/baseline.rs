use vstd::prelude::*;

use crate::reference_order::lemma_reference_pairs_unique;
use crate::registry::{
    law_add_keeps_others, law_add_same_offset, law_get_after_add, spec_add_offset, spec_get_offset, view_wf, Dumper,
    DumperView,
};

verus! {

/// A reference offset: namespace, name and offset.
pub type RefOffset = (&'static str, &'static str, usize);

pub open spec fn ref_view(r: Seq<RefOffset>) -> Seq<(Seq<char>, Seq<char>, usize)> {
    r.map_values(|e: RefOffset| (e.0@, e.1@, e.2))
}

/// The known offsets that serve as a baseline before the dynamic stages run,
/// in the order they are registered.
pub open spec fn reference_table() -> Seq<(Seq<char>, Seq<char>, usize)> {
    seq![
        ("Atmosphere"@, "Color"@, 0xD0usize),
        ("Atmosphere"@, "Decay"@, 0xDCusize),
        ("Atmosphere"@, "Density"@, 0xE8usize),
        ("Atmosphere"@, "Glare"@, 0xE0usize),
        ("Atmosphere"@, "Haze"@, 0xF0usize),
        ("Atmosphere"@, "Offset"@, 0xF4usize),
        ("BasePart"@, "CastShadow"@, 0xEDusize),
        ("BasePart"@, "Locked"@, 0xEEusize),
        ("BasePart"@, "Massless"@, 0xEFusize),
        ("BasePart"@, "Primitive"@, 0x138usize),
        ("BasePart"@, "Reflectance"@, 0x40usize),
        ("BasePart"@, "Shape"@, 0x1A0usize),
        ("BasePart"@, "Transparency"@, 0x44usize),
        ("BloomEffect"@, "Threshold"@, 0xCCusize),
        ("Camera"@, "CFrame"@, 0xF0usize),
        ("Camera"@, "Position"@, 0x114usize),
        ("Camera"@, "Rotation"@, 0xF0usize),
        ("DataModel"@, "CreatorId"@, 0x180usize),
        ("DataModel"@, "GameId"@, 0x188usize),
        ("DataModel"@, "JobId"@, 0x138usize),
        ("DataModel"@, "PlaceId"@, 0x190usize),
        ("DataModel"@, "ServerIp"@, 0x608usize),
        ("DataModel"@, "Workspace"@, 0x168usize),
        ("FakeDataModel"@, "RealDataModel"@, 0x1D8usize),
        ("Humanoid"@, "Health"@, 0x184usize),
        ("Humanoid"@, "JumpHeight"@, 0x19Cusize),
        ("Humanoid"@, "JumpPower"@, 0x1A0usize),
        ("Humanoid"@, "MaxHealth"@, 0x1A4usize),
        ("Humanoid"@, "MaxSlopeAngle"@, 0x1A8usize),
        ("Humanoid"@, "WalkSpeed"@, 0x1CCusize),
        ("Instance"@, "ChildrenEnd"@, 0x8usize),
        ("Instance"@, "ChildrenStart"@, 0x78usize),
        ("Instance"@, "ChildrenStride"@, 0x10usize),
        ("Instance"@, "ClassDescriptor"@, 0x18usize),
        ("Instance"@, "ClassName"@, 0x8usize),
        ("Instance"@, "Name"@, 0xB0usize),
        ("Instance"@, "Parent"@, 0x70usize),
        ("Lighting"@, "Brightness"@, 0x104usize),
        ("MaterialColors"@, "Asphalt"@, 0x30usize),
        ("MaterialColors"@, "Basalt"@, 0x27usize),
        ("MaterialColors"@, "Brick"@, 0xFusize),
        ("MaterialColors"@, "Cobblestone"@, 0x33usize),
        ("MaterialColors"@, "Concrete"@, 0xCusize),
        ("MaterialColors"@, "CrackedLava"@, 0x2Dusize),
        ("MaterialColors"@, "Glacier"@, 0x1Busize),
        ("MaterialColors"@, "Grass"@, 0x6usize),
        ("MaterialColors"@, "Ground"@, 0x2Ausize),
        ("MaterialColors"@, "Ice"@, 0x36usize),
        ("MaterialColors"@, "LeafyGrass"@, 0x39usize),
        ("MaterialColors"@, "Limestone"@, 0x3Fusize),
        ("MaterialColors"@, "Mud"@, 0x24usize),
        ("MaterialColors"@, "Pavement"@, 0x42usize),
        ("MaterialColors"@, "Rock"@, 0x18usize),
        ("MaterialColors"@, "Salt"@, 0x3Cusize),
        ("MaterialColors"@, "Sand"@, 0x12usize),
        ("MaterialColors"@, "Sandstone"@, 0x21usize),
        ("MaterialColors"@, "Slate"@, 0x9usize),
        ("MaterialColors"@, "Snow"@, 0x1Eusize),
        ("MaterialColors"@, "WoodPlanks"@, 0x15usize),
        ("MeshPart"@, "CollisionFidelity"@, 0x10Cusize),
        ("MeshPart"@, "MeshId"@, 0x2E0usize),
        ("MeshPart"@, "RenderFidelity"@, 0x108usize),
        ("MeshPart"@, "TextureId"@, 0x308usize),
        ("MouseService"@, "InputObject"@, 0x108usize),
        ("Player"@, "Character"@, 0x380usize),
        ("Player"@, "DisplayName"@, 0x138usize),
        ("Player"@, "Team"@, 0x288usize),
        ("Player"@, "TeamColor"@, 0x34Cusize),
        ("Player"@, "UserId"@, 0x120usize),
        ("Players"@, "LocalPlayer"@, 0x128usize),
        ("Primitive"@, "AssemblyAngularVelocity"@, 0x114usize),
        ("Primitive"@, "AssemblyLinearVelocity"@, 0xF8usize),
        ("Primitive"@, "CFrame"@, 0xC8usize),
        ("Primitive"@, "Material"@, 0x100usize),
        ("Primitive"@, "Orientation"@, 0xC8usize),
        ("Primitive"@, "Position"@, 0xECusize),
        ("Primitive"@, "PrimitiveFlags"@, 0x113usize),
        ("Primitive"@, "Rotation"@, 0xC8usize),
        ("PrimitiveFlags"@, "Anchored"@, 0x80usize),
        ("PrimitiveFlags"@, "CanCollide"@, 0x1usize),
        ("PrimitiveFlags"@, "CanQuery"@, 0x4usize),
        ("PrimitiveFlags"@, "CanTouch"@, 0x2usize),
        ("Print"@, "Print"@, 0x3EB8648usize),
        ("StatsItem"@, "AvgValue"@, 0x3E0usize),
        ("StatsItem"@, "AvgValuePrev"@, 0x3E8usize),
        ("StatsItem"@, "DisplayName"@, 0x480usize),
        ("StatsItem"@, "Name"@, 0x3B0usize),
        ("StatsItem"@, "ServicePtr"@, 0x71C9558usize),
        ("StatsItem"@, "Value"@, 0x1C0usize),
        ("Team"@, "TeamColor"@, 0xD0usize),
        ("Terrain"@, "GrassLength"@, 0x1E0usize),
        ("Terrain"@, "MaterialColors"@, 0x490usize),
        ("Terrain"@, "WaterColor"@, 0x1D0usize),
        ("Terrain"@, "WaterReflectance"@, 0x1E8usize),
        ("Terrain"@, "WaterTransparency"@, 0x1ECusize),
        ("Terrain"@, "WaterWaveSize"@, 0x1F0usize),
        ("Terrain"@, "WaterWaveSpeed"@, 0x1F4usize),
        ("VisualEngine"@, "FakeDataModel"@, 0xA80usize),
        ("VisualEngine"@, "Pointer"@, 0x7084600usize),
        ("VisualEngine"@, "RenderView"@, 0xBA0usize),
        ("VisualEngine"@, "ViewMatrix"@, 0x140usize),
        ("Workspace"@, "CurrentCamera"@, 0x460usize),
        ("Workspace"@, "World"@, 0x3C0usize),
        ("World"@, "Gravity"@, 0x208usize),
        ("World"@, "Primitives"@, 0x400usize)
    ]
}

/// Registering a list of offsets one after the other.
pub open spec fn add_all(v: DumperView, es: Seq<(Seq<char>, Seq<char>, usize)>) -> DumperView
    decreases es.len(),
{
    if es.len() == 0 {
        v
    } else {
        spec_add_offset(add_all(v, es.drop_last()), es.last().0, es.last().1, es.last().2)
    }
}

/// Registering a batch of offsets keeps the registry well formed.
pub proof fn lemma_add_all_wf(v: DumperView, es: Seq<(Seq<char>, Seq<char>, usize)>)
    requires
        view_wf(v),
    ensures
        view_wf(add_all(v, es)),
    decreases es.len(),
{
    if es.len() > 0 {
        lemma_add_all_wf(v, es.drop_last());
        law_get_after_add(add_all(v, es.drop_last()), es.last().0, es.last().1, es.last().2);
    }
}

/// After registering a batch, every entry of the batch that is not registered
/// again later under the same namespace and name is found with its offset.
pub proof fn law_add_all_last_wins(v: DumperView, es: Seq<(Seq<char>, Seq<char>, usize)>, k: int)
    requires
        view_wf(v),
        0 <= k < es.len(),
        forall|j: int| k < j < es.len() ==> (#[trigger] es[j]).0 != es[k].0 || es[j].1 != es[k].1,
    ensures
        spec_get_offset(add_all(v, es), es[k].0, es[k].1) == Some(es[k].2),
    decreases es.len(),
{
    let init = es.drop_last();
    lemma_add_all_wf(v, init);
    if k == es.len() - 1 {
        law_get_after_add(add_all(v, init), es[k].0, es[k].1, es[k].2);
    } else {
        assert forall|j: int| k < j < init.len() implies (#[trigger] init[j]).0 != init[k].0 || init[j].1 != init[k].1 by {
            assert(init[j] == es[j]);
        }
        law_add_all_last_wins(v, init, k);
        let l = es.last();
        assert(l == es[es.len() - 1]);
        law_add_keeps_others(add_all(v, init), l.0, l.1, l.2, es[k].0, es[k].1);
    }
}

/// A batch in which no entry names `ns`/`name` leaves that offset as it was.
pub proof fn lemma_add_all_keeps_others(
    v: DumperView,
    es: Seq<(Seq<char>, Seq<char>, usize)>,
    ns: Seq<char>,
    name: Seq<char>,
)
    requires
        view_wf(v),
        forall|k: int| 0 <= k < es.len() ==> (#[trigger] es[k]).0 != ns || es[k].1 != name,
    ensures
        spec_get_offset(add_all(v, es), ns, name) == spec_get_offset(v, ns, name),
    decreases es.len(),
{
    if es.len() > 0 {
        let init = es.drop_last();
        assert forall|k: int| 0 <= k < init.len() implies (#[trigger] init[k]).0 != ns || init[k].1 != name by {
            assert(init[k] == es[k]);
        }
        lemma_add_all_keeps_others(v, init, ns, name);
        lemma_add_all_wf(v, init);
        let l = es.last();
        assert(l == es[es.len() - 1]);
        law_add_keeps_others(add_all(v, init), l.0, l.1, l.2, ns, name);
    }
}

/// Registering a batch whose every entry the registry already holds with
/// that offset changes nothing.
pub proof fn lemma_add_all_fixed(w: DumperView, es: Seq<(Seq<char>, Seq<char>, usize)>)
    requires
        view_wf(w),
        forall|k: int| 0 <= k < es.len() ==> spec_get_offset(w, (#[trigger] es[k]).0, es[k].1) == Some(es[k].2),
    ensures
        add_all(w, es) == w,
    decreases es.len(),
{
    if es.len() > 0 {
        let init = es.drop_last();
        assert forall|k: int| 0 <= k < init.len() implies spec_get_offset(w, (#[trigger] init[k]).0, init[k].1) == Some(
            init[k].2,
        ) by {
            assert(init[k] == es[k]);
        }
        lemma_add_all_fixed(w, init);
        let l = es.last();
        assert(l == es[es.len() - 1]);
        law_add_same_offset(w, l.0, l.1, l.2);
    }
}

/// After the baseline is registered, whatever the registry held before, every
/// row of the reference table is found with its offset.
pub proof fn law_register_all_finds_rows(v: DumperView, k: int)
    requires
        view_wf(v),
        0 <= k < reference_table().len(),
    ensures
        spec_get_offset(add_all(v, reference_table()), reference_table()[k].0, reference_table()[k].1) == Some(
            reference_table()[k].2,
        ),
{
    let t = reference_table();
    lemma_reference_pairs_unique();
    assert forall|j: int| k < j < t.len() implies (#[trigger] t[j]).0 != t[k].0 || t[j].1 != t[k].1 by {}
    law_add_all_last_wins(v, t, k);
}

/// Registering the baseline leaves every namespace and name outside the
/// reference table as it was.
pub proof fn law_register_all_keeps_others(v: DumperView, ns: Seq<char>, name: Seq<char>)
    requires
        view_wf(v),
        forall|k: int| 0 <= k < reference_table().len() ==> (#[trigger] reference_table()[k]).0 != ns
            || reference_table()[k].1 != name,
    ensures
        spec_get_offset(add_all(v, reference_table()), ns, name) == spec_get_offset(v, ns, name),
{
    lemma_add_all_keeps_others(v, reference_table(), ns, name);
}

/// Registering the baseline a second time changes nothing.
pub proof fn law_register_all_twice(v: DumperView)
    requires
        view_wf(v),
    ensures
        add_all(add_all(v, reference_table()), reference_table()) == add_all(v, reference_table()),
{
    let t = reference_table();
    let w = add_all(v, t);
    lemma_add_all_wf(v, t);
    assert forall|k: int| 0 <= k < t.len() implies spec_get_offset(w, (#[trigger] t[k]).0, t[k].1) == Some(t[k].2) by {
        law_register_all_finds_rows(v, k);
    }
    lemma_add_all_fixed(w, t);
}

/// The baseline offsets.
pub fn reference_offsets() -> (r: Vec<RefOffset>)
    ensures
        ref_view(r@) == reference_table(),
{
    let r: Vec<RefOffset> = vec![
        ("Atmosphere", "Color", 0xD0usize),
        ("Atmosphere", "Decay", 0xDCusize),
        ("Atmosphere", "Density", 0xE8usize),
        ("Atmosphere", "Glare", 0xE0usize),
        ("Atmosphere", "Haze", 0xF0usize),
        ("Atmosphere", "Offset", 0xF4usize),
        ("BasePart", "CastShadow", 0xEDusize),
        ("BasePart", "Locked", 0xEEusize),
        ("BasePart", "Massless", 0xEFusize),
        ("BasePart", "Primitive", 0x138usize),
        ("BasePart", "Reflectance", 0x40usize),
        ("BasePart", "Shape", 0x1A0usize),
        ("BasePart", "Transparency", 0x44usize),
        ("BloomEffect", "Threshold", 0xCCusize),
        ("Camera", "CFrame", 0xF0usize),
        ("Camera", "Position", 0x114usize),
        ("Camera", "Rotation", 0xF0usize),
        ("DataModel", "CreatorId", 0x180usize),
        ("DataModel", "GameId", 0x188usize),
        ("DataModel", "JobId", 0x138usize),
        ("DataModel", "PlaceId", 0x190usize),
        ("DataModel", "ServerIp", 0x608usize),
        ("DataModel", "Workspace", 0x168usize),
        ("FakeDataModel", "RealDataModel", 0x1D8usize),
        ("Humanoid", "Health", 0x184usize),
        ("Humanoid", "JumpHeight", 0x19Cusize),
        ("Humanoid", "JumpPower", 0x1A0usize),
        ("Humanoid", "MaxHealth", 0x1A4usize),
        ("Humanoid", "MaxSlopeAngle", 0x1A8usize),
        ("Humanoid", "WalkSpeed", 0x1CCusize),
        ("Instance", "ChildrenEnd", 0x8usize),
        ("Instance", "ChildrenStart", 0x78usize),
        ("Instance", "ChildrenStride", 0x10usize),
        ("Instance", "ClassDescriptor", 0x18usize),
        ("Instance", "ClassName", 0x8usize),
        ("Instance", "Name", 0xB0usize),
        ("Instance", "Parent", 0x70usize),
        ("Lighting", "Brightness", 0x104usize),
        ("MaterialColors", "Asphalt", 0x30usize),
        ("MaterialColors", "Basalt", 0x27usize),
        ("MaterialColors", "Brick", 0xFusize),
        ("MaterialColors", "Cobblestone", 0x33usize),
        ("MaterialColors", "Concrete", 0xCusize),
        ("MaterialColors", "CrackedLava", 0x2Dusize),
        ("MaterialColors", "Glacier", 0x1Busize),
        ("MaterialColors", "Grass", 0x6usize),
        ("MaterialColors", "Ground", 0x2Ausize),
        ("MaterialColors", "Ice", 0x36usize),
        ("MaterialColors", "LeafyGrass", 0x39usize),
        ("MaterialColors", "Limestone", 0x3Fusize),
        ("MaterialColors", "Mud", 0x24usize),
        ("MaterialColors", "Pavement", 0x42usize),
        ("MaterialColors", "Rock", 0x18usize),
        ("MaterialColors", "Salt", 0x3Cusize),
        ("MaterialColors", "Sand", 0x12usize),
        ("MaterialColors", "Sandstone", 0x21usize),
        ("MaterialColors", "Slate", 0x9usize),
        ("MaterialColors", "Snow", 0x1Eusize),
        ("MaterialColors", "WoodPlanks", 0x15usize),
        ("MeshPart", "CollisionFidelity", 0x10Cusize),
        ("MeshPart", "MeshId", 0x2E0usize),
        ("MeshPart", "RenderFidelity", 0x108usize),
        ("MeshPart", "TextureId", 0x308usize),
        ("MouseService", "InputObject", 0x108usize),
        ("Player", "Character", 0x380usize),
        ("Player", "DisplayName", 0x138usize),
        ("Player", "Team", 0x288usize),
        ("Player", "TeamColor", 0x34Cusize),
        ("Player", "UserId", 0x120usize),
        ("Players", "LocalPlayer", 0x128usize),
        ("Primitive", "AssemblyAngularVelocity", 0x114usize),
        ("Primitive", "AssemblyLinearVelocity", 0xF8usize),
        ("Primitive", "CFrame", 0xC8usize),
        ("Primitive", "Material", 0x100usize),
        ("Primitive", "Orientation", 0xC8usize),
        ("Primitive", "Position", 0xECusize),
        ("Primitive", "PrimitiveFlags", 0x113usize),
        ("Primitive", "Rotation", 0xC8usize),
        ("PrimitiveFlags", "Anchored", 0x80usize),
        ("PrimitiveFlags", "CanCollide", 0x1usize),
        ("PrimitiveFlags", "CanQuery", 0x4usize),
        ("PrimitiveFlags", "CanTouch", 0x2usize),
        ("Print", "Print", 0x3EB8648usize),
        ("StatsItem", "AvgValue", 0x3E0usize),
        ("StatsItem", "AvgValuePrev", 0x3E8usize),
        ("StatsItem", "DisplayName", 0x480usize),
        ("StatsItem", "Name", 0x3B0usize),
        ("StatsItem", "ServicePtr", 0x71C9558usize),
        ("StatsItem", "Value", 0x1C0usize),
        ("Team", "TeamColor", 0xD0usize),
        ("Terrain", "GrassLength", 0x1E0usize),
        ("Terrain", "MaterialColors", 0x490usize),
        ("Terrain", "WaterColor", 0x1D0usize),
        ("Terrain", "WaterReflectance", 0x1E8usize),
        ("Terrain", "WaterTransparency", 0x1ECusize),
        ("Terrain", "WaterWaveSize", 0x1F0usize),
        ("Terrain", "WaterWaveSpeed", 0x1F4usize),
        ("VisualEngine", "FakeDataModel", 0xA80usize),
        ("VisualEngine", "Pointer", 0x7084600usize),
        ("VisualEngine", "RenderView", 0xBA0usize),
        ("VisualEngine", "ViewMatrix", 0x140usize),
        ("Workspace", "CurrentCamera", 0x460usize),
        ("Workspace", "World", 0x3C0usize),
        ("World", "Gravity", 0x208usize),
        ("World", "Primitives", 0x400usize)
    ];
    assert(ref_view(r@) =~= reference_table());
    r
}

/// Registers every baseline offset; stages that run later override them with
/// the values they find.
pub fn register_all(d: &mut Dumper)
    requires
        old(d).wf(),
    ensures
        final(d).wf(),
        final(d)@ == add_all(old(d)@, reference_table()),
{
    let refs = reference_offsets();
    let n = refs.len();
    let mut i: usize = 0;
    while i < n
        invariant
            i <= n,
            n == refs@.len(),
            ref_view(refs@) == reference_table(),
            d.wf(),
            d@ == add_all(old(d)@, reference_table().take(i as int)),
        decreases n - i,
    {
        let (ns, name, off) = refs[i];
        d.add_offset(ns, name, off);
        proof {
            let t = reference_table();
            assert(t.take(i + 1).drop_last() =~= t.take(i as int));
            assert(t[i as int] == (ns@, name@, off));
        }
        i = i + 1;
    }
    assert(reference_table().take(n as int) =~= reference_table());
}

/// The number of distinct reference offsets, one per row of the table.
pub fn count_reference() -> (n: usize)
    ensures
        n == reference_table().len(),
{
    105
}

} // verus!
