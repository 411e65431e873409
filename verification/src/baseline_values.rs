//! The baseline, once registered, reads back the reference offsets the tool
//! ships with, row by row.

use vstd::prelude::*;

use crate::baseline::{add_all, law_register_all_finds_rows, reference_table};
use crate::registry::{spec_get_offset, view_wf, DumperView};

verus! {

/// After the baseline is registered, whatever the registry held before,
/// the reference offsets of Atmosphere, BasePart, BloomEffect read back as the
/// values the tool ships with.
pub proof fn law_baseline_atmosphere_to_bloom_effect(v: DumperView)
    requires
        view_wf(v),
    ensures
        spec_get_offset(add_all(v, reference_table()), "Atmosphere"@, "Color"@) == Some(0xD0usize),
        spec_get_offset(add_all(v, reference_table()), "Atmosphere"@, "Decay"@) == Some(0xDCusize),
        spec_get_offset(add_all(v, reference_table()), "Atmosphere"@, "Density"@) == Some(0xE8usize),
        spec_get_offset(add_all(v, reference_table()), "Atmosphere"@, "Glare"@) == Some(0xE0usize),
        spec_get_offset(add_all(v, reference_table()), "Atmosphere"@, "Haze"@) == Some(0xF0usize),
        spec_get_offset(add_all(v, reference_table()), "Atmosphere"@, "Offset"@) == Some(0xF4usize),
        spec_get_offset(add_all(v, reference_table()), "BasePart"@, "CastShadow"@) == Some(0xEDusize),
        spec_get_offset(add_all(v, reference_table()), "BasePart"@, "Locked"@) == Some(0xEEusize),
        spec_get_offset(add_all(v, reference_table()), "BasePart"@, "Massless"@) == Some(0xEFusize),
        spec_get_offset(add_all(v, reference_table()), "BasePart"@, "Primitive"@) == Some(0x138usize),
        spec_get_offset(add_all(v, reference_table()), "BasePart"@, "Reflectance"@) == Some(0x40usize),
        spec_get_offset(add_all(v, reference_table()), "BasePart"@, "Shape"@) == Some(0x1A0usize),
        spec_get_offset(add_all(v, reference_table()), "BasePart"@, "Transparency"@) == Some(0x44usize),
        spec_get_offset(add_all(v, reference_table()), "BloomEffect"@, "Threshold"@) == Some(0xCCusize),
{
    law_register_all_finds_rows(v, 0);
    law_register_all_finds_rows(v, 1);
    law_register_all_finds_rows(v, 2);
    law_register_all_finds_rows(v, 3);
    law_register_all_finds_rows(v, 4);
    law_register_all_finds_rows(v, 5);
    law_register_all_finds_rows(v, 6);
    law_register_all_finds_rows(v, 7);
    law_register_all_finds_rows(v, 8);
    law_register_all_finds_rows(v, 9);
    law_register_all_finds_rows(v, 10);
    law_register_all_finds_rows(v, 11);
    law_register_all_finds_rows(v, 12);
    law_register_all_finds_rows(v, 13);
}

/// After the baseline is registered, whatever the registry held before,
/// the reference offsets of Camera, DataModel, FakeDataModel, Humanoid read back as the
/// values the tool ships with.
pub proof fn law_baseline_camera_to_humanoid(v: DumperView)
    requires
        view_wf(v),
    ensures
        spec_get_offset(add_all(v, reference_table()), "Camera"@, "CFrame"@) == Some(0xF0usize),
        spec_get_offset(add_all(v, reference_table()), "Camera"@, "Position"@) == Some(0x114usize),
        spec_get_offset(add_all(v, reference_table()), "Camera"@, "Rotation"@) == Some(0xF0usize),
        spec_get_offset(add_all(v, reference_table()), "DataModel"@, "CreatorId"@) == Some(0x180usize),
        spec_get_offset(add_all(v, reference_table()), "DataModel"@, "GameId"@) == Some(0x188usize),
        spec_get_offset(add_all(v, reference_table()), "DataModel"@, "JobId"@) == Some(0x138usize),
        spec_get_offset(add_all(v, reference_table()), "DataModel"@, "PlaceId"@) == Some(0x190usize),
        spec_get_offset(add_all(v, reference_table()), "DataModel"@, "ServerIp"@) == Some(0x608usize),
        spec_get_offset(add_all(v, reference_table()), "DataModel"@, "Workspace"@) == Some(0x168usize),
        spec_get_offset(add_all(v, reference_table()), "FakeDataModel"@, "RealDataModel"@) == Some(0x1D8usize),
        spec_get_offset(add_all(v, reference_table()), "Humanoid"@, "Health"@) == Some(0x184usize),
        spec_get_offset(add_all(v, reference_table()), "Humanoid"@, "JumpHeight"@) == Some(0x19Cusize),
        spec_get_offset(add_all(v, reference_table()), "Humanoid"@, "JumpPower"@) == Some(0x1A0usize),
        spec_get_offset(add_all(v, reference_table()), "Humanoid"@, "MaxHealth"@) == Some(0x1A4usize),
        spec_get_offset(add_all(v, reference_table()), "Humanoid"@, "MaxSlopeAngle"@) == Some(0x1A8usize),
        spec_get_offset(add_all(v, reference_table()), "Humanoid"@, "WalkSpeed"@) == Some(0x1CCusize),
{
    law_register_all_finds_rows(v, 14);
    law_register_all_finds_rows(v, 15);
    law_register_all_finds_rows(v, 16);
    law_register_all_finds_rows(v, 17);
    law_register_all_finds_rows(v, 18);
    law_register_all_finds_rows(v, 19);
    law_register_all_finds_rows(v, 20);
    law_register_all_finds_rows(v, 21);
    law_register_all_finds_rows(v, 22);
    law_register_all_finds_rows(v, 23);
    law_register_all_finds_rows(v, 24);
    law_register_all_finds_rows(v, 25);
    law_register_all_finds_rows(v, 26);
    law_register_all_finds_rows(v, 27);
    law_register_all_finds_rows(v, 28);
    law_register_all_finds_rows(v, 29);
}

/// After the baseline is registered, whatever the registry held before,
/// the reference offsets of Instance, Lighting, MeshPart, MouseService read back as the
/// values the tool ships with.
pub proof fn law_baseline_instance_to_mouse_service(v: DumperView)
    requires
        view_wf(v),
    ensures
        spec_get_offset(add_all(v, reference_table()), "Instance"@, "ChildrenEnd"@) == Some(0x8usize),
        spec_get_offset(add_all(v, reference_table()), "Instance"@, "ChildrenStart"@) == Some(0x78usize),
        spec_get_offset(add_all(v, reference_table()), "Instance"@, "ChildrenStride"@) == Some(0x10usize),
        spec_get_offset(add_all(v, reference_table()), "Instance"@, "ClassDescriptor"@) == Some(0x18usize),
        spec_get_offset(add_all(v, reference_table()), "Instance"@, "ClassName"@) == Some(0x8usize),
        spec_get_offset(add_all(v, reference_table()), "Instance"@, "Name"@) == Some(0xB0usize),
        spec_get_offset(add_all(v, reference_table()), "Instance"@, "Parent"@) == Some(0x70usize),
        spec_get_offset(add_all(v, reference_table()), "Lighting"@, "Brightness"@) == Some(0x104usize),
        spec_get_offset(add_all(v, reference_table()), "MeshPart"@, "CollisionFidelity"@) == Some(0x10Cusize),
        spec_get_offset(add_all(v, reference_table()), "MeshPart"@, "MeshId"@) == Some(0x2E0usize),
        spec_get_offset(add_all(v, reference_table()), "MeshPart"@, "RenderFidelity"@) == Some(0x108usize),
        spec_get_offset(add_all(v, reference_table()), "MeshPart"@, "TextureId"@) == Some(0x308usize),
        spec_get_offset(add_all(v, reference_table()), "MouseService"@, "InputObject"@) == Some(0x108usize),
{
    law_register_all_finds_rows(v, 30);
    law_register_all_finds_rows(v, 31);
    law_register_all_finds_rows(v, 32);
    law_register_all_finds_rows(v, 33);
    law_register_all_finds_rows(v, 34);
    law_register_all_finds_rows(v, 35);
    law_register_all_finds_rows(v, 36);
    law_register_all_finds_rows(v, 37);
    law_register_all_finds_rows(v, 59);
    law_register_all_finds_rows(v, 60);
    law_register_all_finds_rows(v, 61);
    law_register_all_finds_rows(v, 62);
    law_register_all_finds_rows(v, 63);
}

/// After the baseline is registered, whatever the registry held before,
/// the reference offsets of Player, Players, Primitive read back as the
/// values the tool ships with.
pub proof fn law_baseline_player_to_primitive(v: DumperView)
    requires
        view_wf(v),
    ensures
        spec_get_offset(add_all(v, reference_table()), "Player"@, "Character"@) == Some(0x380usize),
        spec_get_offset(add_all(v, reference_table()), "Player"@, "DisplayName"@) == Some(0x138usize),
        spec_get_offset(add_all(v, reference_table()), "Player"@, "Team"@) == Some(0x288usize),
        spec_get_offset(add_all(v, reference_table()), "Player"@, "TeamColor"@) == Some(0x34Cusize),
        spec_get_offset(add_all(v, reference_table()), "Player"@, "UserId"@) == Some(0x120usize),
        spec_get_offset(add_all(v, reference_table()), "Players"@, "LocalPlayer"@) == Some(0x128usize),
        spec_get_offset(add_all(v, reference_table()), "Primitive"@, "AssemblyAngularVelocity"@) == Some(0x114usize),
        spec_get_offset(add_all(v, reference_table()), "Primitive"@, "AssemblyLinearVelocity"@) == Some(0xF8usize),
        spec_get_offset(add_all(v, reference_table()), "Primitive"@, "CFrame"@) == Some(0xC8usize),
        spec_get_offset(add_all(v, reference_table()), "Primitive"@, "Material"@) == Some(0x100usize),
        spec_get_offset(add_all(v, reference_table()), "Primitive"@, "Orientation"@) == Some(0xC8usize),
        spec_get_offset(add_all(v, reference_table()), "Primitive"@, "Position"@) == Some(0xECusize),
        spec_get_offset(add_all(v, reference_table()), "Primitive"@, "PrimitiveFlags"@) == Some(0x113usize),
        spec_get_offset(add_all(v, reference_table()), "Primitive"@, "Rotation"@) == Some(0xC8usize),
{
    law_register_all_finds_rows(v, 64);
    law_register_all_finds_rows(v, 65);
    law_register_all_finds_rows(v, 66);
    law_register_all_finds_rows(v, 67);
    law_register_all_finds_rows(v, 68);
    law_register_all_finds_rows(v, 69);
    law_register_all_finds_rows(v, 70);
    law_register_all_finds_rows(v, 71);
    law_register_all_finds_rows(v, 72);
    law_register_all_finds_rows(v, 73);
    law_register_all_finds_rows(v, 74);
    law_register_all_finds_rows(v, 75);
    law_register_all_finds_rows(v, 76);
    law_register_all_finds_rows(v, 77);
}

/// After the baseline is registered, whatever the registry held before,
/// the reference offsets of PrimitiveFlags, Print, StatsItem, Team read back as the
/// values the tool ships with.
pub proof fn law_baseline_primitive_flags_to_team(v: DumperView)
    requires
        view_wf(v),
    ensures
        spec_get_offset(add_all(v, reference_table()), "PrimitiveFlags"@, "Anchored"@) == Some(0x80usize),
        spec_get_offset(add_all(v, reference_table()), "PrimitiveFlags"@, "CanCollide"@) == Some(0x1usize),
        spec_get_offset(add_all(v, reference_table()), "PrimitiveFlags"@, "CanQuery"@) == Some(0x4usize),
        spec_get_offset(add_all(v, reference_table()), "PrimitiveFlags"@, "CanTouch"@) == Some(0x2usize),
        spec_get_offset(add_all(v, reference_table()), "Print"@, "Print"@) == Some(0x3EB8648usize),
        spec_get_offset(add_all(v, reference_table()), "StatsItem"@, "AvgValue"@) == Some(0x3E0usize),
        spec_get_offset(add_all(v, reference_table()), "StatsItem"@, "AvgValuePrev"@) == Some(0x3E8usize),
        spec_get_offset(add_all(v, reference_table()), "StatsItem"@, "DisplayName"@) == Some(0x480usize),
        spec_get_offset(add_all(v, reference_table()), "StatsItem"@, "Name"@) == Some(0x3B0usize),
        spec_get_offset(add_all(v, reference_table()), "StatsItem"@, "ServicePtr"@) == Some(0x71C9558usize),
        spec_get_offset(add_all(v, reference_table()), "StatsItem"@, "Value"@) == Some(0x1C0usize),
        spec_get_offset(add_all(v, reference_table()), "Team"@, "TeamColor"@) == Some(0xD0usize),
{
    law_register_all_finds_rows(v, 78);
    law_register_all_finds_rows(v, 79);
    law_register_all_finds_rows(v, 80);
    law_register_all_finds_rows(v, 81);
    law_register_all_finds_rows(v, 82);
    law_register_all_finds_rows(v, 83);
    law_register_all_finds_rows(v, 84);
    law_register_all_finds_rows(v, 85);
    law_register_all_finds_rows(v, 86);
    law_register_all_finds_rows(v, 87);
    law_register_all_finds_rows(v, 88);
    law_register_all_finds_rows(v, 89);
}

/// After the baseline is registered, whatever the registry held before,
/// the reference offsets of Terrain, VisualEngine, Workspace, World read back as the
/// values the tool ships with.
pub proof fn law_baseline_terrain_to_world(v: DumperView)
    requires
        view_wf(v),
    ensures
        spec_get_offset(add_all(v, reference_table()), "Terrain"@, "GrassLength"@) == Some(0x1E0usize),
        spec_get_offset(add_all(v, reference_table()), "Terrain"@, "MaterialColors"@) == Some(0x490usize),
        spec_get_offset(add_all(v, reference_table()), "Terrain"@, "WaterColor"@) == Some(0x1D0usize),
        spec_get_offset(add_all(v, reference_table()), "Terrain"@, "WaterReflectance"@) == Some(0x1E8usize),
        spec_get_offset(add_all(v, reference_table()), "Terrain"@, "WaterTransparency"@) == Some(0x1ECusize),
        spec_get_offset(add_all(v, reference_table()), "Terrain"@, "WaterWaveSize"@) == Some(0x1F0usize),
        spec_get_offset(add_all(v, reference_table()), "Terrain"@, "WaterWaveSpeed"@) == Some(0x1F4usize),
        spec_get_offset(add_all(v, reference_table()), "VisualEngine"@, "FakeDataModel"@) == Some(0xA80usize),
        spec_get_offset(add_all(v, reference_table()), "VisualEngine"@, "Pointer"@) == Some(0x7084600usize),
        spec_get_offset(add_all(v, reference_table()), "VisualEngine"@, "RenderView"@) == Some(0xBA0usize),
        spec_get_offset(add_all(v, reference_table()), "VisualEngine"@, "ViewMatrix"@) == Some(0x140usize),
        spec_get_offset(add_all(v, reference_table()), "Workspace"@, "CurrentCamera"@) == Some(0x460usize),
        spec_get_offset(add_all(v, reference_table()), "Workspace"@, "World"@) == Some(0x3C0usize),
        spec_get_offset(add_all(v, reference_table()), "World"@, "Gravity"@) == Some(0x208usize),
        spec_get_offset(add_all(v, reference_table()), "World"@, "Primitives"@) == Some(0x400usize),
{
    law_register_all_finds_rows(v, 90);
    law_register_all_finds_rows(v, 91);
    law_register_all_finds_rows(v, 92);
    law_register_all_finds_rows(v, 93);
    law_register_all_finds_rows(v, 94);
    law_register_all_finds_rows(v, 95);
    law_register_all_finds_rows(v, 96);
    law_register_all_finds_rows(v, 97);
    law_register_all_finds_rows(v, 98);
    law_register_all_finds_rows(v, 99);
    law_register_all_finds_rows(v, 100);
    law_register_all_finds_rows(v, 101);
    law_register_all_finds_rows(v, 102);
    law_register_all_finds_rows(v, 103);
    law_register_all_finds_rows(v, 104);
}

/// After the baseline is registered, whatever the registry held before,
/// the reference offsets of MaterialColors read back as the
/// values the tool ships with.
pub proof fn law_baseline_material_colors(v: DumperView)
    requires
        view_wf(v),
    ensures
        spec_get_offset(add_all(v, reference_table()), "MaterialColors"@, "Asphalt"@) == Some(0x30usize),
        spec_get_offset(add_all(v, reference_table()), "MaterialColors"@, "Basalt"@) == Some(0x27usize),
        spec_get_offset(add_all(v, reference_table()), "MaterialColors"@, "Brick"@) == Some(0xFusize),
        spec_get_offset(add_all(v, reference_table()), "MaterialColors"@, "Cobblestone"@) == Some(0x33usize),
        spec_get_offset(add_all(v, reference_table()), "MaterialColors"@, "Concrete"@) == Some(0xCusize),
        spec_get_offset(add_all(v, reference_table()), "MaterialColors"@, "CrackedLava"@) == Some(0x2Dusize),
        spec_get_offset(add_all(v, reference_table()), "MaterialColors"@, "Glacier"@) == Some(0x1Busize),
        spec_get_offset(add_all(v, reference_table()), "MaterialColors"@, "Grass"@) == Some(0x6usize),
        spec_get_offset(add_all(v, reference_table()), "MaterialColors"@, "Ground"@) == Some(0x2Ausize),
        spec_get_offset(add_all(v, reference_table()), "MaterialColors"@, "Ice"@) == Some(0x36usize),
        spec_get_offset(add_all(v, reference_table()), "MaterialColors"@, "LeafyGrass"@) == Some(0x39usize),
        spec_get_offset(add_all(v, reference_table()), "MaterialColors"@, "Limestone"@) == Some(0x3Fusize),
        spec_get_offset(add_all(v, reference_table()), "MaterialColors"@, "Mud"@) == Some(0x24usize),
        spec_get_offset(add_all(v, reference_table()), "MaterialColors"@, "Pavement"@) == Some(0x42usize),
        spec_get_offset(add_all(v, reference_table()), "MaterialColors"@, "Rock"@) == Some(0x18usize),
        spec_get_offset(add_all(v, reference_table()), "MaterialColors"@, "Salt"@) == Some(0x3Cusize),
        spec_get_offset(add_all(v, reference_table()), "MaterialColors"@, "Sand"@) == Some(0x12usize),
        spec_get_offset(add_all(v, reference_table()), "MaterialColors"@, "Sandstone"@) == Some(0x21usize),
        spec_get_offset(add_all(v, reference_table()), "MaterialColors"@, "Slate"@) == Some(0x9usize),
        spec_get_offset(add_all(v, reference_table()), "MaterialColors"@, "Snow"@) == Some(0x1Eusize),
        spec_get_offset(add_all(v, reference_table()), "MaterialColors"@, "WoodPlanks"@) == Some(0x15usize),
{
    law_register_all_finds_rows(v, 38);
    law_register_all_finds_rows(v, 39);
    law_register_all_finds_rows(v, 40);
    law_register_all_finds_rows(v, 41);
    law_register_all_finds_rows(v, 42);
    law_register_all_finds_rows(v, 43);
    law_register_all_finds_rows(v, 44);
    law_register_all_finds_rows(v, 45);
    law_register_all_finds_rows(v, 46);
    law_register_all_finds_rows(v, 47);
    law_register_all_finds_rows(v, 48);
    law_register_all_finds_rows(v, 49);
    law_register_all_finds_rows(v, 50);
    law_register_all_finds_rows(v, 51);
    law_register_all_finds_rows(v, 52);
    law_register_all_finds_rows(v, 53);
    law_register_all_finds_rows(v, 54);
    law_register_all_finds_rows(v, 55);
    law_register_all_finds_rows(v, 56);
    law_register_all_finds_rows(v, 57);
    law_register_all_finds_rows(v, 58);
}

} // verus!
