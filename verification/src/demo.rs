//! Sample entries across several tag categories, for trying the launcher
//! without real system data.

use vstd::prelude::*;

use crate::provider::{new_item, Item, ItemView};
use crate::tags::normalize_tag_path;
use crate::text::str_views;

verus! {

/// Owned copies of string slices.
fn owned_strs(v: &[&str]) -> (r: Vec<String>)
    ensures
        str_views(r@) == v@.map_values(|s: &str| s@),
{
    let mut r: Vec<String> = Vec::new();
    let mut i: usize = 0;
    while i < v.len()
        invariant
            i <= v@.len(),
            str_views(r@) == v@.take(i as int).map_values(|s: &str| s@),
        decreases v@.len() - i,
    {
        let ghost before = r@;
        let s = v[i].to_owned();
        r.push(s);
        assert(r@ =~= before.push(s));
        assert(v@.take(i + 1) =~= v@.take(i as int).push(v@[i as int]));
        assert(str_views(r@) =~= str_views(before).push(s@));
        assert(str_views(r@) =~= v@.take(i + 1).map_values(|s: &str| s@));
        i = i + 1;
    }
    assert(v@.take(i as int) =~= v@);
    r
}

/// The view of a sample item of the `demo` provider.
pub open spec fn demo_item_view(
    id: Seq<char>,
    label: Seq<char>,
    sub: Seq<char>,
    icon: Seq<char>,
    tags: Seq<Seq<char>>,
    fields: Seq<Seq<char>>,
) -> ItemView {
    ItemView {
        sub: sub,
        icon: icon,
        tags: tags.map_values(|t: Seq<char>| normalize_tag_path(t)),
        search_fields: fields,
        ..new_item(id, label, "demo"@)
    }
}

/// A sample item of the `demo` provider.
fn demo_item(id: &str, label: &str, sub: &str, icon: &str, tags: &[&str], fields: &[&str]) -> (r: Item)
    ensures
        r@ == demo_item_view(
            id@,
            label@,
            sub@,
            icon@,
            tags@.map_values(|t: &str| t@),
            fields@.map_values(|s: &str| s@),
        ),
{
    let r = Item::new(id, label, "demo").with_sub(sub).with_icon(icon).with_tags(tags).with_search_fields(
        owned_strs(fields),
    );
    assert(r@.tags =~= tags@.map_values(|t: &str| t@).map_values(|t: Seq<char>| normalize_tag_path(t)));
    r
}

/// The sample items: audio effects, instruments, REAPER actions and tracks,
/// all of the `demo` provider.
pub open spec fn demo_views() -> Seq<ItemView> {
    seq![
        demo_item_view("demo-reverb"@, "ReaVerbate"@, "Cockos reverb plugin"@, "R"@, seq!["audio/effects/reverb"@, "audio/effects/plugin/vst"@], seq!["ReaVerbate"@, "reverb"@, "cockos"@]),
        demo_item_view("demo-eq"@, "ReaEQ"@, "Cockos parametric equalizer"@, "E"@, seq!["audio/effects/eq"@, "audio/effects/plugin/vst"@], seq!["ReaEQ"@, "equalizer"@, "cockos"@]),
        demo_item_view("demo-comp"@, "ReaComp"@, "Cockos compressor"@, "C"@, seq!["audio/effects/dynamics"@, "audio/effects/plugin/vst"@], seq!["ReaComp"@, "compressor"@, "dynamics"@]),
        demo_item_view("demo-delay"@, "ReaDelay"@, "Cockos multi-tap delay"@, "D"@, seq!["audio/effects/delay"@, "audio/effects/plugin/vst"@], seq!["ReaDelay"@, "delay"@, "echo"@]),
        demo_item_view("demo-gate"@, "ReaGate"@, "Cockos noise gate"@, "G"@, seq!["audio/effects/dynamics"@, "audio/effects/plugin/vst"@], seq!["ReaGate"@, "gate"@, "noise"@]),
        demo_item_view("demo-synth"@, "Vital"@, "Spectral warping wavetable synth"@, "V"@, seq!["audio/instruments/synth"@, "audio/effects/plugin/vst3"@], seq!["Vital"@, "synthesizer"@, "wavetable"@]),
        demo_item_view("demo-sampler"@, "ReaSamplomatic5000"@, "Cockos sampler"@, "S"@, seq!["audio/instruments/sampler"@, "audio/effects/plugin/vst"@], seq!["ReaSamplomatic5000"@, "sampler"@, "cockos"@]),
        demo_item_view("demo-piano"@, "Piano One"@, "Free acoustic piano"@, "P"@, seq!["audio/instruments/piano"@, "audio/effects/plugin/vst"@], seq!["Piano One"@, "piano"@, "acoustic"@]),
        demo_item_view("demo-action-save"@, "Save Project"@, "Action: File > Save project"@, "A"@, seq!["reaper/actions/file"@], seq!["Save Project"@, "save"@, "file"@]),
        demo_item_view("demo-action-render"@, "Render Project"@, "Action: File > Render project to disk"@, "A"@, seq!["reaper/actions/file"@], seq!["Render Project"@, "render"@, "bounce"@, "export"@]),
        demo_item_view("demo-action-play"@, "Play/Stop"@, "Action: Transport > Play/Stop"@, "A"@, seq!["reaper/actions/transport"@], seq!["Play Stop"@, "transport"@, "playback"@]),
        demo_item_view("demo-action-record"@, "Record"@, "Action: Transport > Record"@, "A"@, seq!["reaper/actions/transport"@], seq!["Record"@, "transport"@, "arm"@]),
        demo_item_view("demo-track-master"@, "Master Track"@, "Track: Master bus"@, "T"@, seq!["reaper/tracks"@], seq!["Master Track"@, "master"@, "bus"@]),
        demo_item_view("demo-track-drums"@, "Drums"@, "Track: Drum bus (folder)"@, "T"@, seq!["reaper/tracks"@], seq!["Drums"@, "drum"@, "percussion"@]),
        demo_item_view("demo-track-vocals"@, "Lead Vocals"@, "Track: Lead vocal recording"@, "T"@, seq!["reaper/tracks"@], seq!["Lead Vocals"@, "vocal"@, "voice"@]),
    ]
}

/// The sample items: audio effects, instruments, REAPER actions and tracks,
/// all of the `demo` provider.
pub fn demo_items() -> (r: Vec<Item>)
    ensures
        r@.map_values(|i: Item| i@) == demo_views(),
{
    let mut r: Vec<Item> = Vec::new();
    let tags: Vec<&str> = vec!["audio/effects/reverb", "audio/effects/plugin/vst"];
    let fields: Vec<&str> = vec!["ReaVerbate", "reverb", "cockos"];
    r.push(demo_item("demo-reverb", "ReaVerbate", "Cockos reverb plugin", "R", tags.as_slice(), fields.as_slice()));
    assert(tags@.map_values(|t: &str| t@) =~= seq!["audio/effects/reverb"@, "audio/effects/plugin/vst"@]);
    assert(fields@.map_values(|t: &str| t@) =~= seq!["ReaVerbate"@, "reverb"@, "cockos"@]);
    assert(r@[0]@ == demo_views()[0]);
    let tags: Vec<&str> = vec!["audio/effects/eq", "audio/effects/plugin/vst"];
    let fields: Vec<&str> = vec!["ReaEQ", "equalizer", "cockos"];
    r.push(demo_item("demo-eq", "ReaEQ", "Cockos parametric equalizer", "E", tags.as_slice(), fields.as_slice()));
    assert(tags@.map_values(|t: &str| t@) =~= seq!["audio/effects/eq"@, "audio/effects/plugin/vst"@]);
    assert(fields@.map_values(|t: &str| t@) =~= seq!["ReaEQ"@, "equalizer"@, "cockos"@]);
    assert(r@[1]@ == demo_views()[1]);
    let tags: Vec<&str> = vec!["audio/effects/dynamics", "audio/effects/plugin/vst"];
    let fields: Vec<&str> = vec!["ReaComp", "compressor", "dynamics"];
    r.push(demo_item("demo-comp", "ReaComp", "Cockos compressor", "C", tags.as_slice(), fields.as_slice()));
    assert(tags@.map_values(|t: &str| t@) =~= seq!["audio/effects/dynamics"@, "audio/effects/plugin/vst"@]);
    assert(fields@.map_values(|t: &str| t@) =~= seq!["ReaComp"@, "compressor"@, "dynamics"@]);
    assert(r@[2]@ == demo_views()[2]);
    let tags: Vec<&str> = vec!["audio/effects/delay", "audio/effects/plugin/vst"];
    let fields: Vec<&str> = vec!["ReaDelay", "delay", "echo"];
    r.push(demo_item("demo-delay", "ReaDelay", "Cockos multi-tap delay", "D", tags.as_slice(), fields.as_slice()));
    assert(tags@.map_values(|t: &str| t@) =~= seq!["audio/effects/delay"@, "audio/effects/plugin/vst"@]);
    assert(fields@.map_values(|t: &str| t@) =~= seq!["ReaDelay"@, "delay"@, "echo"@]);
    assert(r@[3]@ == demo_views()[3]);
    let tags: Vec<&str> = vec!["audio/effects/dynamics", "audio/effects/plugin/vst"];
    let fields: Vec<&str> = vec!["ReaGate", "gate", "noise"];
    r.push(demo_item("demo-gate", "ReaGate", "Cockos noise gate", "G", tags.as_slice(), fields.as_slice()));
    assert(tags@.map_values(|t: &str| t@) =~= seq!["audio/effects/dynamics"@, "audio/effects/plugin/vst"@]);
    assert(fields@.map_values(|t: &str| t@) =~= seq!["ReaGate"@, "gate"@, "noise"@]);
    assert(r@[4]@ == demo_views()[4]);
    let tags: Vec<&str> = vec!["audio/instruments/synth", "audio/effects/plugin/vst3"];
    let fields: Vec<&str> = vec!["Vital", "synthesizer", "wavetable"];
    r.push(demo_item("demo-synth", "Vital", "Spectral warping wavetable synth", "V", tags.as_slice(), fields.as_slice()));
    assert(tags@.map_values(|t: &str| t@) =~= seq!["audio/instruments/synth"@, "audio/effects/plugin/vst3"@]);
    assert(fields@.map_values(|t: &str| t@) =~= seq!["Vital"@, "synthesizer"@, "wavetable"@]);
    assert(r@[5]@ == demo_views()[5]);
    let tags: Vec<&str> = vec!["audio/instruments/sampler", "audio/effects/plugin/vst"];
    let fields: Vec<&str> = vec!["ReaSamplomatic5000", "sampler", "cockos"];
    r.push(demo_item("demo-sampler", "ReaSamplomatic5000", "Cockos sampler", "S", tags.as_slice(), fields.as_slice()));
    assert(tags@.map_values(|t: &str| t@) =~= seq!["audio/instruments/sampler"@, "audio/effects/plugin/vst"@]);
    assert(fields@.map_values(|t: &str| t@) =~= seq!["ReaSamplomatic5000"@, "sampler"@, "cockos"@]);
    assert(r@[6]@ == demo_views()[6]);
    let tags: Vec<&str> = vec!["audio/instruments/piano", "audio/effects/plugin/vst"];
    let fields: Vec<&str> = vec!["Piano One", "piano", "acoustic"];
    r.push(demo_item("demo-piano", "Piano One", "Free acoustic piano", "P", tags.as_slice(), fields.as_slice()));
    assert(tags@.map_values(|t: &str| t@) =~= seq!["audio/instruments/piano"@, "audio/effects/plugin/vst"@]);
    assert(fields@.map_values(|t: &str| t@) =~= seq!["Piano One"@, "piano"@, "acoustic"@]);
    assert(r@[7]@ == demo_views()[7]);
    let tags: Vec<&str> = vec!["reaper/actions/file"];
    let fields: Vec<&str> = vec!["Save Project", "save", "file"];
    r.push(demo_item("demo-action-save", "Save Project", "Action: File > Save project", "A", tags.as_slice(), fields.as_slice()));
    assert(tags@.map_values(|t: &str| t@) =~= seq!["reaper/actions/file"@]);
    assert(fields@.map_values(|t: &str| t@) =~= seq!["Save Project"@, "save"@, "file"@]);
    assert(r@[8]@ == demo_views()[8]);
    let tags: Vec<&str> = vec!["reaper/actions/file"];
    let fields: Vec<&str> = vec!["Render Project", "render", "bounce", "export"];
    r.push(demo_item("demo-action-render", "Render Project", "Action: File > Render project to disk", "A", tags.as_slice(), fields.as_slice()));
    assert(tags@.map_values(|t: &str| t@) =~= seq!["reaper/actions/file"@]);
    assert(fields@.map_values(|t: &str| t@) =~= seq!["Render Project"@, "render"@, "bounce"@, "export"@]);
    assert(r@[9]@ == demo_views()[9]);
    let tags: Vec<&str> = vec!["reaper/actions/transport"];
    let fields: Vec<&str> = vec!["Play Stop", "transport", "playback"];
    r.push(demo_item("demo-action-play", "Play/Stop", "Action: Transport > Play/Stop", "A", tags.as_slice(), fields.as_slice()));
    assert(tags@.map_values(|t: &str| t@) =~= seq!["reaper/actions/transport"@]);
    assert(fields@.map_values(|t: &str| t@) =~= seq!["Play Stop"@, "transport"@, "playback"@]);
    assert(r@[10]@ == demo_views()[10]);
    let tags: Vec<&str> = vec!["reaper/actions/transport"];
    let fields: Vec<&str> = vec!["Record", "transport", "arm"];
    r.push(demo_item("demo-action-record", "Record", "Action: Transport > Record", "A", tags.as_slice(), fields.as_slice()));
    assert(tags@.map_values(|t: &str| t@) =~= seq!["reaper/actions/transport"@]);
    assert(fields@.map_values(|t: &str| t@) =~= seq!["Record"@, "transport"@, "arm"@]);
    assert(r@[11]@ == demo_views()[11]);
    let tags: Vec<&str> = vec!["reaper/tracks"];
    let fields: Vec<&str> = vec!["Master Track", "master", "bus"];
    r.push(demo_item("demo-track-master", "Master Track", "Track: Master bus", "T", tags.as_slice(), fields.as_slice()));
    assert(tags@.map_values(|t: &str| t@) =~= seq!["reaper/tracks"@]);
    assert(fields@.map_values(|t: &str| t@) =~= seq!["Master Track"@, "master"@, "bus"@]);
    assert(r@[12]@ == demo_views()[12]);
    let tags: Vec<&str> = vec!["reaper/tracks"];
    let fields: Vec<&str> = vec!["Drums", "drum", "percussion"];
    r.push(demo_item("demo-track-drums", "Drums", "Track: Drum bus (folder)", "T", tags.as_slice(), fields.as_slice()));
    assert(tags@.map_values(|t: &str| t@) =~= seq!["reaper/tracks"@]);
    assert(fields@.map_values(|t: &str| t@) =~= seq!["Drums"@, "drum"@, "percussion"@]);
    assert(r@[13]@ == demo_views()[13]);
    let tags: Vec<&str> = vec!["reaper/tracks"];
    let fields: Vec<&str> = vec!["Lead Vocals", "vocal", "voice"];
    r.push(demo_item("demo-track-vocals", "Lead Vocals", "Track: Lead vocal recording", "T", tags.as_slice(), fields.as_slice()));
    assert(tags@.map_values(|t: &str| t@) =~= seq!["reaper/tracks"@]);
    assert(fields@.map_values(|t: &str| t@) =~= seq!["Lead Vocals"@, "vocal"@, "voice"@]);
    assert(r@[14]@ == demo_views()[14]);
    assert(r@.map_values(|i: Item| i@) =~= demo_views());
    r
}

} // verus!
