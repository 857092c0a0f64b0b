use vstd::prelude::*;

verus! {

/// Why a shader operation has no result.
#[derive(Clone, Copy, Debug, PartialEq, Eq, Structural)]
pub enum ShaderError {
    /// The shader's file could not be read.
    Unreadable,
    /// Compiling is left to the GPU backend.
    CompileUnsupported,
}

/// A file as it stood on disk when it was last polled: its path, its
/// modification time and its contents.
pub struct DiskFile {
    pub path: String,
    pub modified: u64,
    pub text: String,
}

/// The first file of `disk`, from index `i` on, whose path is `path`.
pub open spec fn find_from(disk: Seq<DiskFile>, path: Seq<char>, i: int) -> Option<int>
    decreases disk.len() - i,
{
    if i < 0 || i >= disk.len() {
        None
    } else if disk[i].path@ == path {
        Some(i)
    } else {
        find_from(disk, path, i + 1)
    }
}

/// The first file of `disk` whose path is `path`.
pub open spec fn find_file(disk: Seq<DiskFile>, path: Seq<char>) -> Option<int> {
    find_from(disk, path, 0)
}

proof fn lemma_find_from_bounds(disk: Seq<DiskFile>, path: Seq<char>, i: int)
    ensures
        find_from(disk, path, i) matches Some(j) ==> 0 <= j < disk.len() && disk[j].path@ == path,
    decreases disk.len() - i,
{
    if 0 <= i < disk.len() && disk[i].path@ != path {
        lemma_find_from_bounds(disk, path, i + 1);
    }
}

/// Looks a file up by its path.
pub fn find_disk_file(disk: &Vec<DiskFile>, path: &String) -> (r: Option<usize>)
    ensures
        r matches Some(i) ==> find_file(disk@, path@) == Some(i as int),
        r is None ==> find_file(disk@, path@) is None,
{
    let mut i: usize = 0;
    while i < disk.len()
        invariant
            0 <= i <= disk@.len(),
            find_file(disk@, path@) == find_from(disk@, path@, i as int),
        decreases disk@.len() - i,
    {
        if disk[i].path == *path {
            return Some(i);
        }
        i = i + 1;
    }
    None
}

/// The state of a file-backed shader.
pub struct FileView {
    pub path: Seq<char>,
    pub live_reload: bool,
    pub modified: u64,
    pub text: Seq<char>,
}

/// The state of one shader of a composer; a nested composer is its shaders
/// and the text it last joined.
pub enum NodeView {
    Text(Seq<char>),
    File(FileView),
    Composite(Seq<NodeView>, Seq<char>),
}

impl NodeView {
    pub open spec fn text(self) -> Seq<char> {
        match self {
            NodeView::Text(t) => t,
            NodeView::File(f) => f.text,
            NodeView::Composite(_, t) => t,
        }
    }
}

/// A file-backed shader polled against `disk`: the new state and the answer.
/// Without live reload nothing changes. Otherwise a missing file is an
/// error, and a modification time other than the recorded one brings in the
/// file's contents and time.
pub open spec fn file_check(f: FileView, disk: Seq<DiskFile>) -> (FileView, Result<bool, ShaderError>) {
    if !f.live_reload {
        (f, Ok(false))
    } else {
        match find_file(disk, f.path) {
            None => (f, Err(ShaderError::Unreadable)),
            Some(i) => if disk[i].modified != f.modified {
                (
                    FileView { modified: disk[i].modified, text: disk[i].text@, ..f },
                    Ok(true),
                )
            } else {
                (f, Ok(false))
            },
        }
    }
}

/// One shader polled against `disk`; a nested composer sweeps its shaders
/// and joins its text anew where one changed.
pub open spec fn node_check(n: NodeView, disk: Seq<DiskFile>) -> (NodeView, Result<bool, ShaderError>)
    decreases n,
{
    match n {
        NodeView::Text(_) => (n, Ok(false)),
        NodeView::File(f) => {
            let (g, r) = file_check(f, disk);
            (NodeView::File(g), r)
        },
        NodeView::Composite(children, t) => {
            let (cs, r) = sweep(children, disk);
            (
                NodeView::Composite(
                    cs,
                    if r == Ok::<bool, ShaderError>(true) {
                        joined(cs)
                    } else {
                        t
                    },
                ),
                r,
            )
        },
    }
}

/// Polls every shader in order: whether any changed, or the first error.
/// The shaders after a failing one are not polled.
pub open spec fn sweep(nodes: Seq<NodeView>, disk: Seq<DiskFile>) -> (
    Seq<NodeView>,
    Result<bool, ShaderError>,
)
    decreases nodes,
{
    if nodes.len() == 0 {
        (nodes, Ok(false))
    } else {
        let (front, r) = sweep(nodes.drop_last(), disk);
        match r {
            Err(e) => (front.push(nodes.last()), Err(e)),
            Ok(changed) => {
                let (n, r2) = node_check(nodes.last(), disk);
                match r2 {
                    Err(e) => (front.push(n), Err(e)),
                    Ok(c) => (front.push(n), Ok(changed || c)),
                }
            },
        }
    }
}

/// The texts of the shaders, each followed by a newline, in order.
pub open spec fn joined(nodes: Seq<NodeView>) -> Seq<char>
    decreases nodes.len(),
{
    if nodes.len() == 0 {
        Seq::empty()
    } else {
        joined(nodes.drop_last()) + nodes.last().text() + seq!['\n']
    }
}

/// The paths of the files with live reload, in order, nested composers
/// included.
pub open spec fn watched(nodes: Seq<NodeView>) -> Seq<Seq<char>>
    decreases nodes,
{
    if nodes.len() == 0 {
        Seq::empty()
    } else {
        watched(nodes.drop_last()) + watched_node(nodes.last())
    }
}

pub open spec fn watched_node(n: NodeView) -> Seq<Seq<char>>
    decreases n,
{
    match n {
        NodeView::File(f) => if f.live_reload {
            seq![f.path]
        } else {
            Seq::empty()
        },
        NodeView::Text(_) => Seq::empty(),
        NodeView::Composite(children, _) => watched(children),
    }
}

/// What a shader offers to the render stage.
pub trait Shader: Sized {
    spec fn text_view(&self) -> Seq<char>;

    fn get_text(&self) -> (r: &str)
        ensures
            r@ == self.text_view(),
    ;

    fn set_text(&mut self, text: String)
        ensures
            final(self).text_view() == text@,
    ;

    /// What a poll against `disk` may turn this shader into, answering `r`.
    spec fn polls_to(&self, after: &Self, disk: Seq<DiskFile>, r: Result<bool, ShaderError>) -> bool;

    /// Advances time-based state; none of these shaders has any, so nothing
    /// changes.
    fn update(&mut self)
        ensures
            *final(self) == *old(self),
    ;

    /// Whether the text changed since the last poll, reloading what did.
    fn check_changes(&mut self, disk: &Vec<DiskFile>) -> (r: Result<bool, ShaderError>)
        ensures
            old(self).polls_to(final(self), disk@, r),
    ;

    fn compile(&self) -> (r: Result<(), ShaderError>)
        ensures
            r == Err::<(), ShaderError>(ShaderError::CompileUnsupported),
    ;
}

/// A shader held in memory.
pub struct TextShader {
    text: String,
}

impl View for TextShader {
    type V = Seq<char>;

    closed spec fn view(&self) -> Seq<char> {
        self.text@
    }
}

impl TextShader {
    pub fn new(text: String) -> (r: TextShader)
        ensures
            r@ == text@,
    {
        TextShader { text }
    }
}

impl Shader for TextShader {
    open spec fn text_view(&self) -> Seq<char> {
        self@
    }

    /// A shader in memory never changes by itself.
    open spec fn polls_to(&self, after: &Self, disk: Seq<DiskFile>, r: Result<bool, ShaderError>) -> bool {
        after@ == self@ && r == Ok::<bool, ShaderError>(false)
    }

    fn get_text(&self) -> (r: &str) {
        self.text.as_str()
    }

    fn set_text(&mut self, text: String) {
        self.text = text;
    }

    fn update(&mut self) {
    }

    fn check_changes(&mut self, disk: &Vec<DiskFile>) -> (r: Result<bool, ShaderError>) {
        Ok(false)
    }

    fn compile(&self) -> (r: Result<(), ShaderError>) {
        Err(ShaderError::CompileUnsupported)
    }
}

/// A shader read from a file, reloaded when the file's modification time
/// changes and live reload is on.
pub struct FileShader {
    text: String,
    file_path: String,
    live_reload: bool,
    modified: u64,
}

impl View for FileShader {
    type V = FileView;

    closed spec fn view(&self) -> FileView {
        FileView {
            path: self.file_path@,
            live_reload: self.live_reload,
            modified: self.modified,
            text: self.text@,
        }
    }
}

impl FileShader {
    /// A shader with the contents and the modification time that `disk`
    /// holds for `file_path`, or an error where the file is not there.
    pub fn new(file_path: String, live_reload: bool, disk: &Vec<DiskFile>) -> (r: Result<
        FileShader,
        ShaderError,
    >)
        ensures
            find_file(disk@, file_path@) is None <==> r is Err,
            r is Err ==> r == Err::<FileShader, ShaderError>(ShaderError::Unreadable),
            r matches Ok(s) ==> find_file(disk@, file_path@) matches Some(i) && s@ == (FileView {
                path: file_path@,
                live_reload,
                modified: disk@[i].modified,
                text: disk@[i].text@,
            }),
    {
        match find_disk_file(disk, &file_path) {
            None => Err(ShaderError::Unreadable),
            Some(i) => {
                proof {
                    lemma_find_from_bounds(disk@, file_path@, 0);
                }
                let text = disk[i].text.clone();
                Ok(FileShader { text, file_path, live_reload, modified: disk[i].modified })
            },
        }
    }

    /// The path of the file.
    pub fn file_path(&self) -> (r: &str)
        ensures
            r@ == self@.path,
    {
        self.file_path.as_str()
    }

    /// Whether the file is polled for changes.
    pub fn live_reload(&self) -> (r: bool)
        ensures
            r == self@.live_reload,
    {
        self.live_reload
    }

    /// Polls the file: see `file_check`.
    pub fn poll(&mut self, disk: &Vec<DiskFile>) -> (r: Result<bool, ShaderError>)
        ensures
            (final(self)@, r) == file_check(old(self)@, disk@),
    {
        if !self.live_reload {
            return Ok(false);
        }
        match find_disk_file(disk, &self.file_path) {
            None => Err(ShaderError::Unreadable),
            Some(i) => {
                proof {
                    lemma_find_from_bounds(disk@, self.file_path@, 0);
                }
                if disk[i].modified != self.modified {
                    self.text = disk[i].text.clone();
                    self.modified = disk[i].modified;
                    Ok(true)
                } else {
                    Ok(false)
                }
            },
        }
    }
}

impl Shader for FileShader {
    open spec fn text_view(&self) -> Seq<char> {
        self@.text
    }

    open spec fn polls_to(&self, after: &Self, disk: Seq<DiskFile>, r: Result<bool, ShaderError>) -> bool {
        (after@, r) == file_check(self@, disk)
    }

    fn get_text(&self) -> (r: &str) {
        self.text.as_str()
    }

    fn set_text(&mut self, text: String) {
        self.text = text;
    }

    fn update(&mut self) {
    }

    fn check_changes(&mut self, disk: &Vec<DiskFile>) -> (r: Result<bool, ShaderError>) {
        self.poll(disk)
    }

    fn compile(&self) -> (r: Result<(), ShaderError>) {
        Err(ShaderError::CompileUnsupported)
    }
}

/// One shader of a composer: in memory, read from a file, or a nested
/// composer.
pub enum ShaderNode {
    Text(TextShader),
    File(FileShader),
    Composite(ShaderComposer),
}

pub closed spec fn node_view(n: ShaderNode) -> NodeView
    decreases n,
{
    match n {
        ShaderNode::Text(t) => NodeView::Text(t@),
        ShaderNode::File(f) => NodeView::File(f@),
        ShaderNode::Composite(c) => {
            NodeView::Composite(nodes_view(c.components@), c.text@)
        },
    }
}

pub closed spec fn nodes_view(s: Seq<ShaderNode>) -> Seq<NodeView>
    decreases s,
{
    if s.len() == 0 {
        Seq::empty()
    } else {
        nodes_view(s.drop_last()).push(node_view(s.last()))
    }
}

proof fn lemma_nodes_view(s: Seq<ShaderNode>)
    ensures
        nodes_view(s).len() == s.len(),
        forall|i: int| 0 <= i < s.len() ==> #[trigger] nodes_view(s)[i] == node_view(s[i]),
        forall|i: int| 0 <= i < s.len() ==> #[trigger] nodes_view(s)[i] == s[i]@,
    decreases s.len(),
{
    if s.len() > 0 {
        lemma_nodes_view(s.drop_last());
        assert forall|i: int| 0 <= i < s.len() implies #[trigger] nodes_view(s)[i] == node_view(
            s[i],
        ) by {
            if i < s.len() - 1 {
                assert(s.drop_last()[i] == s[i]);
            }
        }
    }
}

impl View for ShaderNode {
    type V = NodeView;

    open spec fn view(&self) -> NodeView {
        match self {
            ShaderNode::Text(t) => NodeView::Text(t@),
            ShaderNode::File(f) => NodeView::File(f@),
            ShaderNode::Composite(c) => NodeView::Composite(c.nodes(), c.text()),
        }
    }
}

impl ShaderNode {
    pub fn text(&self) -> (r: &str)
        ensures
            r@ == self@.text(),
    {
        match self {
            ShaderNode::Text(t) => t.text.as_str(),
            ShaderNode::File(f) => f.text.as_str(),
            ShaderNode::Composite(c) => c.text.as_str(),
        }
    }

    /// Polls the shader: see `node_check`.
    pub fn poll(&mut self, disk: &Vec<DiskFile>) -> (r: Result<bool, ShaderError>)
        ensures
            (final(self)@, r) == node_check(old(self)@, disk@),
        decreases *old(self),
    {
        match self {
            ShaderNode::Text(_) => Ok(false),
            ShaderNode::File(f) => f.poll(disk),
            ShaderNode::Composite(c) => c.poll(disk),
        }
    }

    fn collect_watched(&self, out: &mut Vec<String>)
        ensures
            final(out)@.map_values(|p: String| p@) == old(out)@.map_values(|p: String| p@)
                + watched_node(self@),
        decreases *self,
    {
        match self {
            ShaderNode::Text(_) => {
                assert(old(out)@.map_values(|p: String| p@) + watched_node(self@) =~= old(
                    out,
                )@.map_values(|p: String| p@));
            },
            ShaderNode::File(f) => {
                if f.live_reload {
                    out.push(f.file_path.clone());
                    assert(final(out)@.map_values(|p: String| p@) =~= old(out)@.map_values(
                        |p: String| p@,
                    ) + watched_node(self@));
                } else {
                    assert(old(out)@.map_values(|p: String| p@) + watched_node(self@) =~= old(
                        out,
                    )@.map_values(|p: String| p@));
                }
            },
            ShaderNode::Composite(c) => c.collect_watched(out),
        }
    }
}

/// Shaders joined, in order, into one text.
pub struct ShaderComposer {
    components: Vec<ShaderNode>,
    text: String,
}

impl ShaderComposer {
    /// The shaders, in order.
    pub closed spec fn nodes(&self) -> Seq<NodeView> {
        nodes_view(self.components@)
    }

    /// The text last joined.
    pub closed spec fn text(&self) -> Seq<char> {
        self.text@
    }

    /// A composer without shaders.
    pub fn new() -> (r: ShaderComposer)
        ensures
            r.nodes() == Seq::<NodeView>::empty(),
            r.text() == Seq::<char>::empty(),
    {
        let r = ShaderComposer { components: Vec::new(), text: String::new() };
        assert(r.nodes() =~= Seq::<NodeView>::empty());
        r
    }

    /// Number of shaders.
    pub fn len(&self) -> (r: usize)
        ensures
            r == self.nodes().len(),
    {
        proof {
            lemma_nodes_view(self.components@);
        }
        self.components.len()
    }

    fn rebuild(&mut self)
        ensures
            final(self).components@ == old(self).components@,
            final(self).text@ == joined(old(self).nodes()),
    {
        let mut text = String::new();
        let mut i: usize = 0;
        let ghost nodes = self.nodes();
        proof {
            lemma_nodes_view(self.components@);
        }
        assert(nodes.take(0) =~= Seq::<NodeView>::empty());
        while i < self.components.len()
            invariant
                0 <= i <= self.components@.len(),
                nodes == self.nodes(),
                nodes.len() == self.components@.len(),
                forall|j: int| 0 <= j < nodes.len() ==> #[trigger] nodes[j] == node_view(self.components@[j]),
                text@ == joined(nodes.take(i as int)),
            decreases self.components@.len() - i,
        {
            let t = self.components[i].text();
            text.push_str(t);
            text.push('\n');
            assert(nodes.take(i as int + 1).drop_last() =~= nodes.take(i as int));
            assert(nodes[i as int] == self.components@[i as int]@);
            i = i + 1;
        }
        assert(nodes.take(i as int) =~= nodes);
        self.text = text;
    }

    /// Inserts a shader at `index`, or at the end where `index` is past it.
    /// The joined text is left as it was.
    pub fn insert(&mut self, index: usize, shader: ShaderNode)
        ensures
            final(self).nodes() == old(self).nodes().insert(
                if index <= old(self).nodes().len() {
                    index as int
                } else {
                    old(self).nodes().len() as int
                },
                shader@,
            ),
            final(self).text() == old(self).text(),
    {
        proof {
            lemma_nodes_view(self.components@);
        }
        let n = self.components.len();
        let at = if index <= n {
            index
        } else {
            n
        };
        let ghost v = shader@;
        self.components.insert(at, shader);
        proof {
            lemma_nodes_view(self.components@);
        }
        assert(self.nodes() =~= old(self).nodes().insert(at as int, v));
    }

    /// Appends a shader and joins the text anew.
    pub fn push(&mut self, shader: ShaderNode)
        ensures
            final(self).nodes() == old(self).nodes().push(shader@),
            final(self).text() == joined(final(self).nodes()),
    {
        let ghost v = shader@;
        self.components.push(shader);
        proof {
            lemma_nodes_view(self.components@);
            lemma_nodes_view(old(self).components@);
        }
        assert(self.nodes() =~= old(self).nodes().push(v));
        self.rebuild();
    }

    fn collect_watched(&self, out: &mut Vec<String>)
        ensures
            final(out)@.map_values(|p: String| p@) == old(out)@.map_values(|p: String| p@)
                + watched(self.nodes()),
        decreases *self,
    {
        let mut k: usize = 0;
        let ghost nodes = self.nodes();
        proof {
            lemma_nodes_view(self.components@);
        }
        assert(nodes.take(0) =~= Seq::<NodeView>::empty());
        assert(old(out)@.map_values(|p: String| p@) + watched(nodes.take(0)) =~= old(
            out,
        )@.map_values(|p: String| p@));
        while k < self.components.len()
            invariant
                0 <= k <= self.components@.len(),
                nodes == self.nodes(),
                nodes.len() == self.components@.len(),
                forall|j: int| 0 <= j < nodes.len() ==> #[trigger] nodes[j] == node_view(self.components@[j]),
                out@.map_values(|p: String| p@) == old(out)@.map_values(|p: String| p@) + watched(
                    nodes.take(k as int),
                ),
            decreases self.components@.len() - k,
        {
            assert(nodes[k as int] == self.components@[k as int]@);
            assert(nodes.take(k as int + 1).drop_last() =~= nodes.take(k as int));
            let ghost before = out@.map_values(|p: String| p@);
            self.components[k].collect_watched(out);
            assert(out@.map_values(|p: String| p@) =~= old(out)@.map_values(|p: String| p@)
                + watched(nodes.take(k as int + 1)));
            k = k + 1;
        }
        assert(nodes.take(k as int) =~= nodes);
    }

    /// The paths of the files that are polled, nested composers included, in
    /// order.
    pub fn watched_paths(&self) -> (r: Vec<String>)
        ensures
            r@.map_values(|p: String| p@) == watched(self.nodes()),
    {
        let mut r: Vec<String> = Vec::new();
        self.collect_watched(&mut r);
        assert(r@.map_values(|p: String| p@) =~= watched(self.nodes()));
        r
    }
}

impl Default for ShaderComposer {
    fn default() -> (r: ShaderComposer)
        ensures
            r.nodes() == Seq::<NodeView>::empty(),
            r.text() == Seq::<char>::empty(),
    {
        ShaderComposer::new()
    }
}

impl Shader for ShaderComposer {
    open spec fn text_view(&self) -> Seq<char> {
        self.text()
    }

    open spec fn polls_to(&self, after: &Self, disk: Seq<DiskFile>, r: Result<bool, ShaderError>) -> bool {
        &&& (after.nodes(), r) == sweep(self.nodes(), disk)
        &&& after.text() == if r == Ok::<bool, ShaderError>(true) {
            joined(after.nodes())
        } else {
            self.text()
        }
    }

    fn get_text(&self) -> (r: &str) {
        self.text.as_str()
    }

    fn set_text(&mut self, text: String) {
        self.text = text;
    }

    fn update(&mut self) {
    }

    fn check_changes(&mut self, disk: &Vec<DiskFile>) -> (r: Result<bool, ShaderError>) {
        self.poll(disk)
    }

    fn compile(&self) -> (r: Result<(), ShaderError>) {
        Err(ShaderError::CompileUnsupported)
    }
}

impl ShaderComposer {
    /// Polls every shader in order and joins the text anew where one changed.
    /// The first error ends the sweep: the shaders polled before it keep what
    /// they loaded, and the joined text stays as it was.
    pub fn poll(&mut self, disk: &Vec<DiskFile>) -> (r: Result<bool, ShaderError>)
        ensures
            (final(self).nodes(), r) == sweep(old(self).nodes(), disk@),
            final(self).text() == if r == Ok::<bool, ShaderError>(true) {
                joined(final(self).nodes())
            } else {
                old(self).text()
            },
        decreases *old(self),
    {
        let ghost start = self.nodes();
        let ghost start_vec = self.components;
        let mut changed = false;
        let mut i: usize = 0;
        proof {
            lemma_nodes_view(self.components@);
        }
        assert(start.take(0) =~= Seq::<NodeView>::empty());
        assert(sweep(start.take(0), disk@).0 =~= Seq::<NodeView>::empty());
        while i < self.components.len()
            invariant
                0 <= i <= self.components@.len(),
                start.len() == self.components@.len(),
                start == old(self).nodes(),
                start_vec == old(self).components,
                start_vec@.len() == start.len(),
                forall|j: int| i <= j < start.len() ==> self.components@[j] == start_vec@[j],
                self.text@ == old(self).text@,
                sweep(start.take(i as int), disk@) == (
                    self.nodes().take(i as int),
                    Ok::<bool, ShaderError>(changed),
                ),
                self.nodes().skip(i as int) == start.skip(i as int),
            decreases self.components@.len() - i,
        {
            let ghost before = self.nodes();
            let ghost before_vec = self.components@;
            proof {
                lemma_nodes_view(before_vec);
            }
            assert(decreases_to!(start_vec => start_vec[i as int]));
            let res = self.components[i].poll(disk);
            let ghost after = self.nodes();
            proof {
                lemma_nodes_view(self.components@);
            }
            assert(start.take(i as int + 1).drop_last() =~= start.take(i as int));
            assert(start[i as int] == before.skip(i as int)[0]);
            assert(start.take(i as int + 1).last() == start[i as int]);
            assert(after =~= before.update(i as int, after[i as int]));
            assert(after.take(i as int) =~= before.take(i as int));
            assert(after.take(i as int + 1) =~= after.take(i as int).push(after[i as int]));
            assert(after.skip(i as int + 1) =~= start.skip(i as int + 1)) by {
                assert(before.skip(i as int).skip(1) =~= before.skip(i as int + 1));
                assert(start.skip(i as int).skip(1) =~= start.skip(i as int + 1));
            }
            match res {
                Err(e) => {
                    proof {
                        lemma_sweep_stops(start, disk@, i as int + 1, after, e);
                    }
                    return Err(e);
                },
                Ok(c) => {
                    changed = changed || c;
                },
            }
            i = i + 1;
        }
        proof {
            lemma_nodes_view(self.components@);
        }
        assert(start.take(i as int) =~= start);
        assert(self.nodes().take(i as int) =~= self.nodes());
        if changed {
            self.rebuild();
        }
        Ok(changed)
    }
}

/// Once the sweep of the first `i` shaders fails, the shaders after them are
/// left as they are and the error is the sweep's.
proof fn lemma_sweep_stops(
    start: Seq<NodeView>,
    disk: Seq<DiskFile>,
    i: int,
    now: Seq<NodeView>,
    e: ShaderError,
)
    requires
        0 <= i <= start.len(),
        now.len() == start.len(),
        sweep(start.take(i), disk) == (now.take(i), Err::<bool, ShaderError>(e)),
        now.skip(i) == start.skip(i),
    ensures
        sweep(start, disk) == (now, Err::<bool, ShaderError>(e)),
    decreases start.len() - i,
{
    if i < start.len() {
        assert(start.take(i + 1).drop_last() =~= start.take(i));
        assert(now.take(i + 1) =~= now.take(i).push(start[i])) by {
            assert(now.skip(i)[0] == start.skip(i)[0]);
        }
        assert(now.skip(i + 1) =~= start.skip(i + 1)) by {
            assert forall|k: int| 0 <= k < now.len() - (i + 1) implies #[trigger] now.skip(i + 1)[k]
                == start.skip(i + 1)[k] by {
                assert(now.skip(i)[k + 1] == start.skip(i)[k + 1]);
            }
        }
        lemma_sweep_stops(start, disk, i + 1, now, e);
    } else {
        assert(start.take(i) =~= start);
        assert(now.take(i) =~= now);
    }
}

/// A file-backed shader without live reload never reports a change and
/// never changes, whatever the disk holds.
pub proof fn lemma_no_live_reload_is_still(f: FileView, disk: Seq<DiskFile>)
    requires
        !f.live_reload,
    ensures
        file_check(f, disk) == (f, Ok::<bool, ShaderError>(false)),
{
}

proof fn lemma_node_check_settles(n: NodeView, disk: Seq<DiskFile>)
    ensures
        node_check(n, disk).1 is Ok ==> node_check(node_check(n, disk).0, disk) == (
            node_check(n, disk).0,
            Ok::<bool, ShaderError>(false),
        ),
    decreases n,
{
    match n {
        NodeView::Composite(children, _) => {
            if sweep(children, disk).1 is Ok {
                lemma_sweep_idempotent(children, disk);
            }
        },
        _ => {},
    }
}

/// Polling twice against the same disk: the second sweep finds nothing new
/// and leaves every shader as the first one left it.
pub proof fn lemma_sweep_idempotent(nodes: Seq<NodeView>, disk: Seq<DiskFile>)
    requires
        sweep(nodes, disk).1 is Ok,
    ensures
        sweep(sweep(nodes, disk).0, disk) == (sweep(nodes, disk).0, Ok::<bool, ShaderError>(false)),
    decreases nodes,
{
    if nodes.len() > 0 {
        let front = nodes.drop_last();
        lemma_sweep_idempotent(front, disk);
        lemma_node_check_settles(nodes.last(), disk);
        let after = sweep(nodes, disk).0;
        assert(after.drop_last() =~= sweep(front, disk).0);
    }
}

} // verus!
