//! Bridge-owned game identity and bootstrap text.
use vstd::prelude::*;
use vstd::string::StringExecFns;
use crate::text::push_str;

verus! {

/// `project_control/bridge_project.json`: the pinned identity of the managed game.
#[derive(Debug, Clone)]
pub struct BridgeProject {
    pub schema: u32,
    pub project_id: String,
    pub project_name: String,
    pub engine: String,
    pub engine_version: String,
    pub revision: u64,
    pub save_schema: u64,
    pub main_scene: String,
    pub export_preset: String,
}

/// Location of the Bridge metadata inside a game.
pub const PROJECT_META: &'static str = "project_control/bridge_project.json";

/// Pinned game identity. This creates no files or live workspace.
pub fn default_metadata() -> (p: BridgeProject)
    ensures
        p.schema == 1,
        p.project_id@ == "crime_sim"@,
        p.project_name@ == "Criminal Simulation"@,
        p.engine@ == "Godot"@,
        p.engine_version@ == "4.7.2"@,
        p.revision == 0,
        p.save_schema == 1,
        p.main_scene@ == "res://game/main.tscn"@,
        p.export_preset@ == "Windows Desktop"@,
{
    BridgeProject {
        schema: 1,
        project_id: String::from_str("crime_sim"),
        project_name: String::from_str("Criminal Simulation"),
        engine: String::from_str("Godot"),
        engine_version: String::from_str("4.7.2"),
        revision: 0,
        save_schema: 1,
        main_scene: String::from_str("res://game/main.tscn"),
        export_preset: String::from_str("Windows Desktop"),
    }
}

pub open spec fn preset_head() -> Seq<char> {
    "[preset.0]\n\nname=\""@
}

pub open spec fn preset_tail() -> Seq<char> {
    "\"\nplatform=\"Windows Desktop\"\nrunnable=true\nadvanced_options=false\ndedicated_server=false\ncustom_features=\"\"\nexport_filter=\"all_resources\"\ninclude_filter=\"\"\nexclude_filter=\"\"\nexport_path=\"\"\nencryption_include_filters=\"\"\nencryption_exclude_filters=\"\"\nencrypt_pck=false\nencrypt_directory=false\nscript_export_mode=2\n\n[preset.0.options]\n\ncustom_template/debug=\"\"\ncustom_template/release=\"\"\nbinary_format/architecture=\"x86_64\"\napplication/modify_resources=true\napplication/product_name=\"Criminal Simulation\"\nssh_remote_deploy/enabled=false\n"@
}

/// The Windows Desktop export preset written into a game that has none.
pub fn export_preset_text(preset_name: &str) -> (s: String)
    ensures
        s@ == preset_head() + preset_name@ + preset_tail(),
{
    let mut s = String::from_str("[preset.0]\n\nname=\"");
    push_str(&mut s, preset_name);
    push_str(
        &mut s,
        "\"\nplatform=\"Windows Desktop\"\nrunnable=true\nadvanced_options=false\ndedicated_server=false\ncustom_features=\"\"\nexport_filter=\"all_resources\"\ninclude_filter=\"\"\nexclude_filter=\"\"\nexport_path=\"\"\nencryption_include_filters=\"\"\nencryption_exclude_filters=\"\"\nencrypt_pck=false\nencrypt_directory=false\nscript_export_mode=2\n\n[preset.0.options]\n\ncustom_template/debug=\"\"\ncustom_template/release=\"\"\nbinary_format/architecture=\"x86_64\"\napplication/modify_resources=true\napplication/product_name=\"Criminal Simulation\"\nssh_remote_deploy/enabled=false\n",
    );
    s
}

} // verus!
