//! The reference table lists each namespace and name once: its rows ascend
//! by namespace, then by name.

use vstd::prelude::*;

use crate::baseline::reference_table;
use crate::text::{chars_lt, lemma_chars_lt_at, lemma_chars_lt_irreflexive, lemma_chars_lt_transitive};

verus! {

/// A row of the reference table: namespace, name and offset.
pub type Row = (Seq<char>, Seq<char>, usize);

/// Row `x` comes before row `y`: by namespace, then by name.
pub open spec fn row_lt(x: Row, y: Row) -> bool {
    chars_lt(x.0, y.0) || (x.0 == y.0 && chars_lt(x.1, y.1))
}

/// From row `i` on, each row comes before the next.
pub open spec fn rows_sorted_from(t: Seq<Row>, i: int) -> bool
    decreases t.len() - i,
{
    if i < 0 || i + 1 >= t.len() {
        true
    } else {
        row_lt(t[i], t[i + 1]) && rows_sorted_from(t, i + 1)
    }
}

proof fn lemma_row_lt_transitive(x: Row, y: Row, z: Row)
    requires
        row_lt(x, y),
        row_lt(y, z),
    ensures
        row_lt(x, z),
{
    if chars_lt(x.0, y.0) && chars_lt(y.0, z.0) {
        lemma_chars_lt_transitive(x.0, y.0, z.0);
    } else if x.0 == y.0 && y.0 == z.0 {
        lemma_chars_lt_transitive(x.1, y.1, z.1);
    }
}

proof fn lemma_row_lt_differs(x: Row, y: Row)
    requires
        row_lt(x, y),
    ensures
        x.0 != y.0 || x.1 != y.1,
{
    lemma_chars_lt_irreflexive(x.0);
    lemma_chars_lt_irreflexive(x.1);
}

proof fn lemma_sorted_all(t: Seq<Row>, i: int)
    requires
        0 <= i,
        rows_sorted_from(t, i),
    ensures
        forall|j: int, k: int| i <= j < k < t.len() ==> row_lt(#[trigger] t[j], #[trigger] t[k]),
    decreases t.len() - i,
{
    if i + 1 < t.len() {
        lemma_sorted_all(t, i + 1);
        assert forall|j: int, k: int| i <= j < k < t.len() implies row_lt(#[trigger] t[j], #[trigger] t[k]) by {
            if j == i && k > i + 1 {
                lemma_row_lt_transitive(t[i], t[i + 1], t[k]);
            }
        }
    }
}

proof fn lemma_rows_0()
    ensures
        row_lt(reference_table()[0], reference_table()[1]),
        row_lt(reference_table()[1], reference_table()[2]),
        row_lt(reference_table()[2], reference_table()[3]),
        row_lt(reference_table()[3], reference_table()[4]),
        row_lt(reference_table()[4], reference_table()[5]),
        row_lt(reference_table()[5], reference_table()[6]),
        row_lt(reference_table()[6], reference_table()[7]),
        row_lt(reference_table()[7], reference_table()[8]),
        row_lt(reference_table()[8], reference_table()[9]),
        row_lt(reference_table()[9], reference_table()[10]),
        row_lt(reference_table()[10], reference_table()[11]),
        row_lt(reference_table()[11], reference_table()[12]),
{
    reveal_strlit("Atmosphere");
    reveal_strlit("BasePart");
    reveal_strlit("CastShadow");
    reveal_strlit("Color");
    reveal_strlit("Decay");
    reveal_strlit("Density");
    reveal_strlit("Glare");
    reveal_strlit("Haze");
    reveal_strlit("Locked");
    reveal_strlit("Massless");
    reveal_strlit("Offset");
    reveal_strlit("Primitive");
    reveal_strlit("Reflectance");
    reveal_strlit("Shape");
    reveal_strlit("Transparency");
    lemma_chars_lt_at("Color"@, "Decay"@, 0);
    lemma_chars_lt_at("Decay"@, "Density"@, 2);
    lemma_chars_lt_at("Density"@, "Glare"@, 0);
    lemma_chars_lt_at("Glare"@, "Haze"@, 0);
    lemma_chars_lt_at("Haze"@, "Offset"@, 0);
    lemma_chars_lt_at("Atmosphere"@, "BasePart"@, 0);
    lemma_chars_lt_at("CastShadow"@, "Locked"@, 0);
    lemma_chars_lt_at("Locked"@, "Massless"@, 0);
    lemma_chars_lt_at("Massless"@, "Primitive"@, 0);
    lemma_chars_lt_at("Primitive"@, "Reflectance"@, 0);
    lemma_chars_lt_at("Reflectance"@, "Shape"@, 0);
    lemma_chars_lt_at("Shape"@, "Transparency"@, 0);
}

proof fn lemma_rows_1()
    ensures
        row_lt(reference_table()[12], reference_table()[13]),
        row_lt(reference_table()[13], reference_table()[14]),
        row_lt(reference_table()[14], reference_table()[15]),
        row_lt(reference_table()[15], reference_table()[16]),
        row_lt(reference_table()[16], reference_table()[17]),
        row_lt(reference_table()[17], reference_table()[18]),
        row_lt(reference_table()[18], reference_table()[19]),
        row_lt(reference_table()[19], reference_table()[20]),
        row_lt(reference_table()[20], reference_table()[21]),
        row_lt(reference_table()[21], reference_table()[22]),
        row_lt(reference_table()[22], reference_table()[23]),
        row_lt(reference_table()[23], reference_table()[24]),
{
    reveal_strlit("BasePart");
    reveal_strlit("BloomEffect");
    reveal_strlit("CFrame");
    reveal_strlit("Camera");
    reveal_strlit("CreatorId");
    reveal_strlit("DataModel");
    reveal_strlit("FakeDataModel");
    reveal_strlit("GameId");
    reveal_strlit("Humanoid");
    reveal_strlit("JobId");
    reveal_strlit("PlaceId");
    reveal_strlit("Position");
    reveal_strlit("Rotation");
    reveal_strlit("ServerIp");
    reveal_strlit("Workspace");
    lemma_chars_lt_at("BasePart"@, "BloomEffect"@, 1);
    lemma_chars_lt_at("BloomEffect"@, "Camera"@, 0);
    lemma_chars_lt_at("CFrame"@, "Position"@, 0);
    lemma_chars_lt_at("Position"@, "Rotation"@, 0);
    lemma_chars_lt_at("Camera"@, "DataModel"@, 0);
    lemma_chars_lt_at("CreatorId"@, "GameId"@, 0);
    lemma_chars_lt_at("GameId"@, "JobId"@, 0);
    lemma_chars_lt_at("JobId"@, "PlaceId"@, 0);
    lemma_chars_lt_at("PlaceId"@, "ServerIp"@, 0);
    lemma_chars_lt_at("ServerIp"@, "Workspace"@, 0);
    lemma_chars_lt_at("DataModel"@, "FakeDataModel"@, 0);
    lemma_chars_lt_at("FakeDataModel"@, "Humanoid"@, 0);
}

proof fn lemma_rows_2()
    ensures
        row_lt(reference_table()[24], reference_table()[25]),
        row_lt(reference_table()[25], reference_table()[26]),
        row_lt(reference_table()[26], reference_table()[27]),
        row_lt(reference_table()[27], reference_table()[28]),
        row_lt(reference_table()[28], reference_table()[29]),
        row_lt(reference_table()[29], reference_table()[30]),
        row_lt(reference_table()[30], reference_table()[31]),
        row_lt(reference_table()[31], reference_table()[32]),
        row_lt(reference_table()[32], reference_table()[33]),
        row_lt(reference_table()[33], reference_table()[34]),
        row_lt(reference_table()[34], reference_table()[35]),
        row_lt(reference_table()[35], reference_table()[36]),
{
    reveal_strlit("ChildrenEnd");
    reveal_strlit("ChildrenStart");
    reveal_strlit("ChildrenStride");
    reveal_strlit("ClassDescriptor");
    reveal_strlit("ClassName");
    reveal_strlit("Health");
    reveal_strlit("Humanoid");
    reveal_strlit("Instance");
    reveal_strlit("JumpHeight");
    reveal_strlit("JumpPower");
    reveal_strlit("MaxHealth");
    reveal_strlit("MaxSlopeAngle");
    reveal_strlit("Name");
    reveal_strlit("Parent");
    reveal_strlit("WalkSpeed");
    lemma_chars_lt_at("Health"@, "JumpHeight"@, 0);
    lemma_chars_lt_at("JumpHeight"@, "JumpPower"@, 4);
    lemma_chars_lt_at("JumpPower"@, "MaxHealth"@, 0);
    lemma_chars_lt_at("MaxHealth"@, "MaxSlopeAngle"@, 3);
    lemma_chars_lt_at("MaxSlopeAngle"@, "WalkSpeed"@, 0);
    lemma_chars_lt_at("Humanoid"@, "Instance"@, 0);
    lemma_chars_lt_at("ChildrenEnd"@, "ChildrenStart"@, 8);
    lemma_chars_lt_at("ChildrenStart"@, "ChildrenStride"@, 10);
    lemma_chars_lt_at("ChildrenStride"@, "ClassDescriptor"@, 1);
    lemma_chars_lt_at("ClassDescriptor"@, "ClassName"@, 5);
    lemma_chars_lt_at("ClassName"@, "Name"@, 0);
    lemma_chars_lt_at("Name"@, "Parent"@, 0);
}

proof fn lemma_rows_3()
    ensures
        row_lt(reference_table()[36], reference_table()[37]),
        row_lt(reference_table()[37], reference_table()[38]),
        row_lt(reference_table()[38], reference_table()[39]),
        row_lt(reference_table()[39], reference_table()[40]),
        row_lt(reference_table()[40], reference_table()[41]),
        row_lt(reference_table()[41], reference_table()[42]),
        row_lt(reference_table()[42], reference_table()[43]),
        row_lt(reference_table()[43], reference_table()[44]),
        row_lt(reference_table()[44], reference_table()[45]),
        row_lt(reference_table()[45], reference_table()[46]),
        row_lt(reference_table()[46], reference_table()[47]),
        row_lt(reference_table()[47], reference_table()[48]),
{
    reveal_strlit("Asphalt");
    reveal_strlit("Basalt");
    reveal_strlit("Brick");
    reveal_strlit("Cobblestone");
    reveal_strlit("Concrete");
    reveal_strlit("CrackedLava");
    reveal_strlit("Glacier");
    reveal_strlit("Grass");
    reveal_strlit("Ground");
    reveal_strlit("Ice");
    reveal_strlit("Instance");
    reveal_strlit("LeafyGrass");
    reveal_strlit("Lighting");
    reveal_strlit("MaterialColors");
    lemma_chars_lt_at("Instance"@, "Lighting"@, 0);
    lemma_chars_lt_at("Lighting"@, "MaterialColors"@, 0);
    lemma_chars_lt_at("Asphalt"@, "Basalt"@, 0);
    lemma_chars_lt_at("Basalt"@, "Brick"@, 1);
    lemma_chars_lt_at("Brick"@, "Cobblestone"@, 0);
    lemma_chars_lt_at("Cobblestone"@, "Concrete"@, 2);
    lemma_chars_lt_at("Concrete"@, "CrackedLava"@, 1);
    lemma_chars_lt_at("CrackedLava"@, "Glacier"@, 0);
    lemma_chars_lt_at("Glacier"@, "Grass"@, 1);
    lemma_chars_lt_at("Grass"@, "Ground"@, 2);
    lemma_chars_lt_at("Ground"@, "Ice"@, 0);
    lemma_chars_lt_at("Ice"@, "LeafyGrass"@, 0);
}

proof fn lemma_rows_4()
    ensures
        row_lt(reference_table()[48], reference_table()[49]),
        row_lt(reference_table()[49], reference_table()[50]),
        row_lt(reference_table()[50], reference_table()[51]),
        row_lt(reference_table()[51], reference_table()[52]),
        row_lt(reference_table()[52], reference_table()[53]),
        row_lt(reference_table()[53], reference_table()[54]),
        row_lt(reference_table()[54], reference_table()[55]),
        row_lt(reference_table()[55], reference_table()[56]),
        row_lt(reference_table()[56], reference_table()[57]),
        row_lt(reference_table()[57], reference_table()[58]),
        row_lt(reference_table()[58], reference_table()[59]),
        row_lt(reference_table()[59], reference_table()[60]),
{
    reveal_strlit("CollisionFidelity");
    reveal_strlit("LeafyGrass");
    reveal_strlit("Limestone");
    reveal_strlit("MaterialColors");
    reveal_strlit("MeshId");
    reveal_strlit("MeshPart");
    reveal_strlit("Mud");
    reveal_strlit("Pavement");
    reveal_strlit("Rock");
    reveal_strlit("Salt");
    reveal_strlit("Sand");
    reveal_strlit("Sandstone");
    reveal_strlit("Slate");
    reveal_strlit("Snow");
    reveal_strlit("WoodPlanks");
    lemma_chars_lt_at("LeafyGrass"@, "Limestone"@, 1);
    lemma_chars_lt_at("Limestone"@, "Mud"@, 0);
    lemma_chars_lt_at("Mud"@, "Pavement"@, 0);
    lemma_chars_lt_at("Pavement"@, "Rock"@, 0);
    lemma_chars_lt_at("Rock"@, "Salt"@, 0);
    lemma_chars_lt_at("Salt"@, "Sand"@, 2);
    lemma_chars_lt_at("Sand"@, "Sandstone"@, 4);
    lemma_chars_lt_at("Sandstone"@, "Slate"@, 1);
    lemma_chars_lt_at("Slate"@, "Snow"@, 1);
    lemma_chars_lt_at("Snow"@, "WoodPlanks"@, 0);
    lemma_chars_lt_at("MaterialColors"@, "MeshPart"@, 1);
    lemma_chars_lt_at("CollisionFidelity"@, "MeshId"@, 0);
}

proof fn lemma_rows_5()
    ensures
        row_lt(reference_table()[60], reference_table()[61]),
        row_lt(reference_table()[61], reference_table()[62]),
        row_lt(reference_table()[62], reference_table()[63]),
        row_lt(reference_table()[63], reference_table()[64]),
        row_lt(reference_table()[64], reference_table()[65]),
        row_lt(reference_table()[65], reference_table()[66]),
        row_lt(reference_table()[66], reference_table()[67]),
        row_lt(reference_table()[67], reference_table()[68]),
        row_lt(reference_table()[68], reference_table()[69]),
        row_lt(reference_table()[69], reference_table()[70]),
        row_lt(reference_table()[70], reference_table()[71]),
        row_lt(reference_table()[71], reference_table()[72]),
{
    reveal_strlit("AssemblyAngularVelocity");
    reveal_strlit("AssemblyLinearVelocity");
    reveal_strlit("CFrame");
    reveal_strlit("Character");
    reveal_strlit("DisplayName");
    reveal_strlit("MeshId");
    reveal_strlit("MeshPart");
    reveal_strlit("MouseService");
    reveal_strlit("Player");
    reveal_strlit("Players");
    reveal_strlit("Primitive");
    reveal_strlit("RenderFidelity");
    reveal_strlit("Team");
    reveal_strlit("TeamColor");
    reveal_strlit("TextureId");
    reveal_strlit("UserId");
    lemma_chars_lt_at("MeshId"@, "RenderFidelity"@, 0);
    lemma_chars_lt_at("RenderFidelity"@, "TextureId"@, 0);
    lemma_chars_lt_at("MeshPart"@, "MouseService"@, 1);
    lemma_chars_lt_at("MouseService"@, "Player"@, 0);
    lemma_chars_lt_at("Character"@, "DisplayName"@, 0);
    lemma_chars_lt_at("DisplayName"@, "Team"@, 0);
    lemma_chars_lt_at("Team"@, "TeamColor"@, 4);
    lemma_chars_lt_at("TeamColor"@, "UserId"@, 0);
    lemma_chars_lt_at("Player"@, "Players"@, 6);
    lemma_chars_lt_at("Players"@, "Primitive"@, 1);
    lemma_chars_lt_at("AssemblyAngularVelocity"@, "AssemblyLinearVelocity"@, 8);
    lemma_chars_lt_at("AssemblyLinearVelocity"@, "CFrame"@, 0);
}

proof fn lemma_rows_6()
    ensures
        row_lt(reference_table()[72], reference_table()[73]),
        row_lt(reference_table()[73], reference_table()[74]),
        row_lt(reference_table()[74], reference_table()[75]),
        row_lt(reference_table()[75], reference_table()[76]),
        row_lt(reference_table()[76], reference_table()[77]),
        row_lt(reference_table()[77], reference_table()[78]),
        row_lt(reference_table()[78], reference_table()[79]),
        row_lt(reference_table()[79], reference_table()[80]),
        row_lt(reference_table()[80], reference_table()[81]),
        row_lt(reference_table()[81], reference_table()[82]),
        row_lt(reference_table()[82], reference_table()[83]),
        row_lt(reference_table()[83], reference_table()[84]),
{
    reveal_strlit("Anchored");
    reveal_strlit("AvgValue");
    reveal_strlit("AvgValuePrev");
    reveal_strlit("CFrame");
    reveal_strlit("CanCollide");
    reveal_strlit("CanQuery");
    reveal_strlit("CanTouch");
    reveal_strlit("Material");
    reveal_strlit("Orientation");
    reveal_strlit("Position");
    reveal_strlit("Primitive");
    reveal_strlit("PrimitiveFlags");
    reveal_strlit("Print");
    reveal_strlit("Rotation");
    reveal_strlit("StatsItem");
    lemma_chars_lt_at("CFrame"@, "Material"@, 0);
    lemma_chars_lt_at("Material"@, "Orientation"@, 0);
    lemma_chars_lt_at("Orientation"@, "Position"@, 0);
    lemma_chars_lt_at("Position"@, "PrimitiveFlags"@, 1);
    lemma_chars_lt_at("PrimitiveFlags"@, "Rotation"@, 0);
    lemma_chars_lt_at("Primitive"@, "PrimitiveFlags"@, 9);
    lemma_chars_lt_at("Anchored"@, "CanCollide"@, 0);
    lemma_chars_lt_at("CanCollide"@, "CanQuery"@, 3);
    lemma_chars_lt_at("CanQuery"@, "CanTouch"@, 3);
    lemma_chars_lt_at("PrimitiveFlags"@, "Print"@, 3);
    lemma_chars_lt_at("Print"@, "StatsItem"@, 0);
    lemma_chars_lt_at("AvgValue"@, "AvgValuePrev"@, 8);
}

proof fn lemma_rows_7()
    ensures
        row_lt(reference_table()[84], reference_table()[85]),
        row_lt(reference_table()[85], reference_table()[86]),
        row_lt(reference_table()[86], reference_table()[87]),
        row_lt(reference_table()[87], reference_table()[88]),
        row_lt(reference_table()[88], reference_table()[89]),
        row_lt(reference_table()[89], reference_table()[90]),
        row_lt(reference_table()[90], reference_table()[91]),
        row_lt(reference_table()[91], reference_table()[92]),
        row_lt(reference_table()[92], reference_table()[93]),
        row_lt(reference_table()[93], reference_table()[94]),
        row_lt(reference_table()[94], reference_table()[95]),
        row_lt(reference_table()[95], reference_table()[96]),
{
    reveal_strlit("AvgValuePrev");
    reveal_strlit("DisplayName");
    reveal_strlit("GrassLength");
    reveal_strlit("MaterialColors");
    reveal_strlit("Name");
    reveal_strlit("ServicePtr");
    reveal_strlit("StatsItem");
    reveal_strlit("Team");
    reveal_strlit("Terrain");
    reveal_strlit("Value");
    reveal_strlit("WaterColor");
    reveal_strlit("WaterReflectance");
    reveal_strlit("WaterTransparency");
    reveal_strlit("WaterWaveSize");
    reveal_strlit("WaterWaveSpeed");
    lemma_chars_lt_at("AvgValuePrev"@, "DisplayName"@, 0);
    lemma_chars_lt_at("DisplayName"@, "Name"@, 0);
    lemma_chars_lt_at("Name"@, "ServicePtr"@, 0);
    lemma_chars_lt_at("ServicePtr"@, "Value"@, 0);
    lemma_chars_lt_at("StatsItem"@, "Team"@, 0);
    lemma_chars_lt_at("Team"@, "Terrain"@, 2);
    lemma_chars_lt_at("GrassLength"@, "MaterialColors"@, 0);
    lemma_chars_lt_at("MaterialColors"@, "WaterColor"@, 0);
    lemma_chars_lt_at("WaterColor"@, "WaterReflectance"@, 5);
    lemma_chars_lt_at("WaterReflectance"@, "WaterTransparency"@, 5);
    lemma_chars_lt_at("WaterTransparency"@, "WaterWaveSize"@, 5);
    lemma_chars_lt_at("WaterWaveSize"@, "WaterWaveSpeed"@, 10);
}

proof fn lemma_rows_8()
    ensures
        row_lt(reference_table()[96], reference_table()[97]),
        row_lt(reference_table()[97], reference_table()[98]),
        row_lt(reference_table()[98], reference_table()[99]),
        row_lt(reference_table()[99], reference_table()[100]),
        row_lt(reference_table()[100], reference_table()[101]),
        row_lt(reference_table()[101], reference_table()[102]),
        row_lt(reference_table()[102], reference_table()[103]),
        row_lt(reference_table()[103], reference_table()[104]),
{
    reveal_strlit("CurrentCamera");
    reveal_strlit("FakeDataModel");
    reveal_strlit("Gravity");
    reveal_strlit("Pointer");
    reveal_strlit("Primitives");
    reveal_strlit("RenderView");
    reveal_strlit("Terrain");
    reveal_strlit("ViewMatrix");
    reveal_strlit("VisualEngine");
    reveal_strlit("Workspace");
    reveal_strlit("World");
    lemma_chars_lt_at("Terrain"@, "VisualEngine"@, 0);
    lemma_chars_lt_at("FakeDataModel"@, "Pointer"@, 0);
    lemma_chars_lt_at("Pointer"@, "RenderView"@, 0);
    lemma_chars_lt_at("RenderView"@, "ViewMatrix"@, 0);
    lemma_chars_lt_at("VisualEngine"@, "Workspace"@, 0);
    lemma_chars_lt_at("CurrentCamera"@, "World"@, 0);
    lemma_chars_lt_at("Workspace"@, "World"@, 3);
    lemma_chars_lt_at("Gravity"@, "Primitives"@, 0);
}

/// No namespace and name occur twice in the reference table.
pub proof fn lemma_reference_pairs_unique()
    ensures
        forall|j: int, k: int|
            0 <= j < k < reference_table().len() ==> (#[trigger] reference_table()[j]).0 != (
            #[trigger] reference_table()[k]).0 || reference_table()[j].1 != reference_table()[k].1,
{
    let t = reference_table();
    assert(t.len() == 105);
    lemma_rows_0();
    lemma_rows_1();
    lemma_rows_2();
    lemma_rows_3();
    lemma_rows_4();
    lemma_rows_5();
    lemma_rows_6();
    lemma_rows_7();
    lemma_rows_8();
    assert(rows_sorted_from(t, 104));
    assert(rows_sorted_from(t, 103));
    assert(rows_sorted_from(t, 102));
    assert(rows_sorted_from(t, 101));
    assert(rows_sorted_from(t, 100));
    assert(rows_sorted_from(t, 99));
    assert(rows_sorted_from(t, 98));
    assert(rows_sorted_from(t, 97));
    assert(rows_sorted_from(t, 96));
    assert(rows_sorted_from(t, 95));
    assert(rows_sorted_from(t, 94));
    assert(rows_sorted_from(t, 93));
    assert(rows_sorted_from(t, 92));
    assert(rows_sorted_from(t, 91));
    assert(rows_sorted_from(t, 90));
    assert(rows_sorted_from(t, 89));
    assert(rows_sorted_from(t, 88));
    assert(rows_sorted_from(t, 87));
    assert(rows_sorted_from(t, 86));
    assert(rows_sorted_from(t, 85));
    assert(rows_sorted_from(t, 84));
    assert(rows_sorted_from(t, 83));
    assert(rows_sorted_from(t, 82));
    assert(rows_sorted_from(t, 81));
    assert(rows_sorted_from(t, 80));
    assert(rows_sorted_from(t, 79));
    assert(rows_sorted_from(t, 78));
    assert(rows_sorted_from(t, 77));
    assert(rows_sorted_from(t, 76));
    assert(rows_sorted_from(t, 75));
    assert(rows_sorted_from(t, 74));
    assert(rows_sorted_from(t, 73));
    assert(rows_sorted_from(t, 72));
    assert(rows_sorted_from(t, 71));
    assert(rows_sorted_from(t, 70));
    assert(rows_sorted_from(t, 69));
    assert(rows_sorted_from(t, 68));
    assert(rows_sorted_from(t, 67));
    assert(rows_sorted_from(t, 66));
    assert(rows_sorted_from(t, 65));
    assert(rows_sorted_from(t, 64));
    assert(rows_sorted_from(t, 63));
    assert(rows_sorted_from(t, 62));
    assert(rows_sorted_from(t, 61));
    assert(rows_sorted_from(t, 60));
    assert(rows_sorted_from(t, 59));
    assert(rows_sorted_from(t, 58));
    assert(rows_sorted_from(t, 57));
    assert(rows_sorted_from(t, 56));
    assert(rows_sorted_from(t, 55));
    assert(rows_sorted_from(t, 54));
    assert(rows_sorted_from(t, 53));
    assert(rows_sorted_from(t, 52));
    assert(rows_sorted_from(t, 51));
    assert(rows_sorted_from(t, 50));
    assert(rows_sorted_from(t, 49));
    assert(rows_sorted_from(t, 48));
    assert(rows_sorted_from(t, 47));
    assert(rows_sorted_from(t, 46));
    assert(rows_sorted_from(t, 45));
    assert(rows_sorted_from(t, 44));
    assert(rows_sorted_from(t, 43));
    assert(rows_sorted_from(t, 42));
    assert(rows_sorted_from(t, 41));
    assert(rows_sorted_from(t, 40));
    assert(rows_sorted_from(t, 39));
    assert(rows_sorted_from(t, 38));
    assert(rows_sorted_from(t, 37));
    assert(rows_sorted_from(t, 36));
    assert(rows_sorted_from(t, 35));
    assert(rows_sorted_from(t, 34));
    assert(rows_sorted_from(t, 33));
    assert(rows_sorted_from(t, 32));
    assert(rows_sorted_from(t, 31));
    assert(rows_sorted_from(t, 30));
    assert(rows_sorted_from(t, 29));
    assert(rows_sorted_from(t, 28));
    assert(rows_sorted_from(t, 27));
    assert(rows_sorted_from(t, 26));
    assert(rows_sorted_from(t, 25));
    assert(rows_sorted_from(t, 24));
    assert(rows_sorted_from(t, 23));
    assert(rows_sorted_from(t, 22));
    assert(rows_sorted_from(t, 21));
    assert(rows_sorted_from(t, 20));
    assert(rows_sorted_from(t, 19));
    assert(rows_sorted_from(t, 18));
    assert(rows_sorted_from(t, 17));
    assert(rows_sorted_from(t, 16));
    assert(rows_sorted_from(t, 15));
    assert(rows_sorted_from(t, 14));
    assert(rows_sorted_from(t, 13));
    assert(rows_sorted_from(t, 12));
    assert(rows_sorted_from(t, 11));
    assert(rows_sorted_from(t, 10));
    assert(rows_sorted_from(t, 9));
    assert(rows_sorted_from(t, 8));
    assert(rows_sorted_from(t, 7));
    assert(rows_sorted_from(t, 6));
    assert(rows_sorted_from(t, 5));
    assert(rows_sorted_from(t, 4));
    assert(rows_sorted_from(t, 3));
    assert(rows_sorted_from(t, 2));
    assert(rows_sorted_from(t, 1));
    assert(rows_sorted_from(t, 0));
    lemma_sorted_all(t, 0);
    assert forall|j: int, k: int| 0 <= j < k < t.len() implies (#[trigger] t[j]).0 != (#[trigger] t[k]).0 || t[j].1 != t[k].1 by {
        lemma_row_lt_differs(t[j], t[k]);
    }
}

} // verus!
