use wvr_core::config::{BufferPrecision, InputConfig, Speed};
use wvr_core::shader::{DiskFile, FileShader, Shader, ShaderComposer, ShaderError, ShaderNode, TextShader};
use wvr_core::{get_filters_path, get_libs_path};

fn file(path: &str, modified: u64, text: &str) -> DiskFile {
    DiskFile { path: path.to_string(), modified, text: text.to_string() }
}

#[test]
fn text_shader_holds_its_text() {
    let mut t = TextShader::new("void main() {}".to_string());
    assert_eq!(t.get_text(), "void main() {}");
    t.set_text("x".to_string());
    assert_eq!(t.get_text(), "x");
    assert_eq!(t.check_changes(&vec![]), Ok(false));
    assert_eq!(t.compile(), Err(ShaderError::CompileUnsupported));
}

#[test]
fn file_shader_reads_the_disk() {
    let disk = vec![file("a.glsl", 1, "A"), file("b.glsl", 2, "B")];
    let f = FileShader::new("b.glsl".to_string(), true, &disk).ok().unwrap();
    assert_eq!(f.get_text(), "B");
    assert_eq!(f.file_path(), "b.glsl");
    assert!(f.live_reload());
}

#[test]
fn missing_file_is_unreadable() {
    let disk = vec![file("a.glsl", 1, "A")];
    assert!(matches!(FileShader::new("c.glsl".to_string(), true, &disk), Err(ShaderError::Unreadable)));
    let mut f = FileShader::new("a.glsl".to_string(), true, &disk).ok().unwrap();
    assert_eq!(f.check_changes(&vec![]), Err(ShaderError::Unreadable));
    assert_eq!(f.get_text(), "A");
}

#[test]
fn without_live_reload_nothing_changes() {
    let disk = vec![file("a.glsl", 1, "A")];
    let mut f = FileShader::new("a.glsl".to_string(), false, &disk).ok().unwrap();
    let later = vec![file("a.glsl", 9, "A2")];
    assert_eq!(f.check_changes(&later), Ok(false));
    assert_eq!(f.check_changes(&vec![]), Ok(false));
    assert_eq!(f.get_text(), "A");
}

#[test]
fn file_reloads_on_a_new_time() {
    let disk = vec![file("a.glsl", 1, "A")];
    let mut f = FileShader::new("a.glsl".to_string(), true, &disk).ok().unwrap();
    assert_eq!(f.check_changes(&disk), Ok(false));
    let later = vec![file("a.glsl", 2, "A2")];
    assert_eq!(f.check_changes(&later), Ok(true));
    assert_eq!(f.get_text(), "A2");
    assert_eq!(f.check_changes(&later), Ok(false));
}

#[test]
fn composer_joins_and_reloads() {
    let disk = vec![file("a.glsl", 1, "A"), file("b.glsl", 1, "B")];
    let mut c = ShaderComposer::new();
    c.push(ShaderNode::File(FileShader::new("a.glsl".to_string(), true, &disk).ok().unwrap()));
    c.push(ShaderNode::File(FileShader::new("b.glsl".to_string(), true, &disk).ok().unwrap()));
    assert_eq!(c.get_text(), "A\nB\n");
    let changed = vec![file("a.glsl", 1, "A"), file("b.glsl", 2, "B2")];
    assert_eq!(c.check_changes(&changed), Ok(true));
    assert_eq!(c.get_text(), "A\nB2\n");
    assert_eq!(c.check_changes(&changed), Ok(false));
    assert_eq!(c.get_text(), "A\nB2\n");
}

#[test]
fn composer_of_text_shaders() {
    let mut c = ShaderComposer::new();
    assert_eq!(c.get_text(), "");
    c.push(ShaderNode::Text(TextShader::new("A".to_string())));
    c.push(ShaderNode::Text(TextShader::new("B".to_string())));
    assert_eq!(c.get_text(), "A\nB\n");
    assert_eq!(c.len(), 2);
    assert_eq!(c.check_changes(&vec![]), Ok(false));
    assert_eq!(c.compile(), Err(ShaderError::CompileUnsupported));
}

#[test]
fn insert_clamps_its_index() {
    let mut c = ShaderComposer::new();
    c.push(ShaderNode::Text(TextShader::new("A".to_string())));
    c.insert(10, ShaderNode::Text(TextShader::new("C".to_string())));
    c.insert(0, ShaderNode::Text(TextShader::new("Z".to_string())));
    assert_eq!(c.len(), 3);
    // inserting leaves the joined text as it was; the next push joins anew
    assert_eq!(c.get_text(), "A\n");
    c.push(ShaderNode::Text(TextShader::new("D".to_string())));
    assert_eq!(c.get_text(), "Z\nA\nC\nD\n");
}

#[test]
fn first_error_stops_the_sweep() {
    let disk = vec![file("a.glsl", 1, "A"), file("b.glsl", 1, "B")];
    let mut c = ShaderComposer::new();
    c.push(ShaderNode::File(FileShader::new("a.glsl".to_string(), true, &disk).ok().unwrap()));
    c.push(ShaderNode::File(FileShader::new("b.glsl".to_string(), true, &disk).ok().unwrap()));
    // a.glsl changed, b.glsl is gone
    let broken = vec![file("a.glsl", 2, "A2")];
    assert_eq!(c.check_changes(&broken), Err(ShaderError::Unreadable));
    assert_eq!(c.get_text(), "A\nB\n");
    // once b.glsl is back, the change to a.glsl has already been taken in
    let back = vec![file("a.glsl", 2, "A2"), file("b.glsl", 1, "B")];
    assert_eq!(c.check_changes(&back), Ok(false));
    assert_eq!(c.get_text(), "A\nB\n");
    c.set_text(String::new());
    assert_eq!(c.get_text(), "");
}

#[test]
fn watched_paths_lists_live_files() {
    let disk = vec![file("a.glsl", 1, "A"), file("b.glsl", 1, "B")];
    let mut c = ShaderComposer::new();
    c.push(ShaderNode::File(FileShader::new("a.glsl".to_string(), false, &disk).ok().unwrap()));
    c.push(ShaderNode::Text(TextShader::new("T".to_string())));
    c.push(ShaderNode::File(FileShader::new("b.glsl".to_string(), true, &disk).ok().unwrap()));
    assert_eq!(c.watched_paths(), vec!["b.glsl".to_string()]);
}

#[test]
fn data_paths() {
    assert_eq!(get_libs_path("/home/u/.local/share/wvr"), "/home/u/.local/share/wvr/libs");
    assert_eq!(get_filters_path("/data"), "/data/filters");
}

#[test]
fn config_defaults_and_kinds() {
    assert_eq!(BufferPrecision::default(), BufferPrecision::U8);
    let v = InputConfig::Video { path: "v.mp4".to_string(), width: 1, height: 1, speed: Speed::Fps(30 << 16) };
    assert!(v.is_video() && !v.is_picture() && !v.is_cam() && !v.is_midi());
    let m = InputConfig::Midi { name: "pad".to_string() };
    assert!(m.is_midi() && !m.is_video());
    let p = InputConfig::Picture { path: "p.png".to_string(), width: 1, height: 1 };
    assert!(p.is_picture());
    let c = InputConfig::Cam { path: "/dev/video0".to_string(), width: 1, height: 1 };
    assert!(c.is_cam());
}

#[test]
fn nested_composer_reloads_its_files() {
    let disk = vec![file("a.glsl", 1, "A"), file("b.glsl", 1, "B")];
    let mut inner = ShaderComposer::new();
    inner.push(ShaderNode::File(FileShader::new("b.glsl".to_string(), true, &disk).ok().unwrap()));
    inner.push(ShaderNode::Text(TextShader::new("C".to_string())));
    let mut outer = ShaderComposer::default();
    outer.push(ShaderNode::File(FileShader::new("a.glsl".to_string(), true, &disk).ok().unwrap()));
    outer.push(ShaderNode::Composite(inner));
    assert_eq!(outer.get_text(), "A\nB\nC\n\n");
    assert_eq!(outer.watched_paths(), vec!["a.glsl".to_string(), "b.glsl".to_string()]);
    let changed = vec![file("a.glsl", 1, "A"), file("b.glsl", 5, "B2")];
    assert_eq!(outer.check_changes(&changed), Ok(true));
    assert_eq!(outer.get_text(), "A\nB2\nC\n\n");
    assert_eq!(outer.check_changes(&changed), Ok(false));
}

#[test]
fn insert_then_push_joins_every_shader() {
    let mut c = ShaderComposer::default();
    c.insert(0, ShaderNode::Text(TextShader::new("A".to_string())));
    c.push(ShaderNode::Text(TextShader::new("B".to_string())));
    assert_eq!(c.get_text(), "A\nB\n");
    c.update();
    assert_eq!(c.get_text(), "A\nB\n");
    assert_eq!(c.len(), 2);
}
