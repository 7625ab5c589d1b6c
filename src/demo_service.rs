//! The greeting and the catalog of demos that the application offers.
use vstd::prelude::*;

verus! {

/// One demo of the catalog.
#[derive(Clone, Debug)]
pub struct DemoInfo {
    pub id: String,
    pub title: String,
    pub description: String,
    pub icon: String,
}

pub struct DemoInfoView {
    pub id: Seq<char>,
    pub title: Seq<char>,
    pub description: Seq<char>,
    pub icon: Seq<char>,
}

impl View for DemoInfo {
    type V = DemoInfoView;

    open spec fn view(&self) -> DemoInfoView {
        DemoInfoView {
            id: self.id@,
            title: self.title@,
            description: self.description@,
            icon: self.icon@,
        }
    }
}

impl DemoInfo {
    /// A field-by-field copy.
    pub fn copy(&self) -> (r: DemoInfo)
        ensures
            r@ == self@,
    {
        DemoInfo {
            id: self.id.clone(),
            title: self.title.clone(),
            description: self.description.clone(),
            icon: self.icon.clone(),
        }
    }
}

pub open spec fn demo_views(v: Seq<DemoInfo>) -> Seq<DemoInfoView> {
    v.map_values(|d: DemoInfo| d@)
}

pub open spec fn demo(id: &str, title: &str, description: &str, icon: &str) -> DemoInfoView {
    DemoInfoView { id: id@, title: title@, description: description@, icon: icon@ }
}

/// The demos, in the order in which they are offered.
pub open spec fn demo_catalog() -> Seq<DemoInfoView> {
    seq![
        demo(
            "hello-world",
            "Hello World デモ",
            "ボタンをクリックしてHello Worldメッセージを表示するシンプルなデモ",
            "👋",
        ),
        demo(
            "image-viewer",
            "画像ビューア",
            "ファイル選択ダイアログで画像を選択し、表示するデモ",
            "🖼️",
        ),
        demo(
            "system-info",
            "システム情報",
            "OS、CPU、メモリ、ディスクなどのシステム情報を表示するデモ",
            "💻",
        ),
        demo(
            "file-explorer",
            "ファイルエクスプローラー",
            "ディレクトリの内容を表示し、ファイルやフォルダを閲覧するデモ",
            "📁",
        ),
        demo(
            "database-memo",
            "ローカルデータベースデモ",
            "SQLiteを使ったメモアプリ - CRUD操作とデータの永続化",
            "💾",
        ),
        demo(
            "realtime-charts",
            "リアルタイムグラフデモ",
            "CPU・メモリ使用率をリアルタイムで線グラフ表示",
            "📊",
        ),
    ]
}

/// Characters with the Unicode White_Space property.
pub open spec fn white_space(c: char) -> bool {
    let x = c as u32;
    ||| 9 <= x <= 13
    ||| x == 32
    ||| x == 0x85
    ||| x == 0xA0
    ||| x == 0x1680
    ||| 0x2000 <= x <= 0x200A
    ||| x == 0x2028
    ||| x == 0x2029
    ||| x == 0x202F
    ||| x == 0x205F
    ||| x == 0x3000
}

pub open spec fn trim_start(s: Seq<char>) -> Seq<char>
    decreases s.len(),
{
    if s.len() > 0 && white_space(s[0]) {
        trim_start(s.drop_first())
    } else {
        s
    }
}

pub open spec fn trim_end(s: Seq<char>) -> Seq<char>
    decreases s.len(),
{
    if s.len() > 0 && white_space(s.last()) {
        trim_end(s.drop_last())
    } else {
        s
    }
}

/// `s` without white space at either end.
pub open spec fn trimmed(s: Seq<char>) -> Seq<char> {
    trim_end(trim_start(s))
}

/// The greeting for a name that has already been trimmed.
pub open spec fn greeting(name: Seq<char>) -> Seq<char> {
    if name.len() == 0 {
        "Hello, World! You've been greeted from Rust!"@
    } else {
        "Hello, "@ + name + "! You've been greeted from Rust!"@
    }
}

/// Whether `c` has the Unicode White_Space property.
pub fn is_white_space(c: char) -> (r: bool)
    ensures
        r == white_space(c),
{
    let x = c as u32;
    (9 <= x && x <= 13) || x == 32 || x == 0x85 || x == 0xA0 || x == 0x1680 || (0x2000 <= x && x
        <= 0x200A) || x == 0x2028 || x == 0x2029 || x == 0x202F || x == 0x205F || x == 0x3000
}

/// `s` without white space at either end.
pub fn trim_text(s: &str) -> (r: &str)
    ensures
        r@ == trimmed(s@),
{
    let n = s.unicode_len();
    let mut i: usize = 0;
    assert(s@.skip(0) =~= s@);
    while i < n && is_white_space(s.get_char(i))
        invariant
            n == s@.len(),
            i <= n,
            trim_start(s@) == trim_start(s@.skip(i as int)),
        decreases n - i,
    {
        assert(s@.skip(i as int).drop_first() =~= s@.skip(i + 1));
        i = i + 1;
    }
    if i < n {
        assert(trim_start(s@.skip(i as int)) == s@.skip(i as int));
    } else {
        assert(trim_start(s@.skip(i as int)) == s@.skip(i as int));
    }
    let mut j: usize = n;
    assert(s@.subrange(i as int, n as int) =~= s@.skip(i as int));
    while j > i && is_white_space(s.get_char(j - 1))
        invariant
            n == s@.len(),
            i <= j <= n,
            trim_start(s@) == s@.subrange(i as int, n as int),
            trimmed(s@) == trim_end(s@.subrange(i as int, j as int)),
        decreases j,
    {
        assert(s@.subrange(i as int, j as int).drop_last() =~= s@.subrange(i as int, j - 1));
        j = j - 1;
    }
    s.substring_char(i, j)
}

/// The demos of the application and the greeting.
pub struct DemoService;

impl DemoService {
    /// Greets `name` without the white space round it, or the world where
    /// nothing is left of it.
    pub fn greet(name: &str) -> (r: String)
        ensures
            r@ == greeting(trimmed(name@)),
    {
        let n = trim_text(name);
        if n.unicode_len() == 0 {
            return String::from_str("Hello, World! You've been greeted from Rust!");
        }
        let mut r = String::from_str("Hello, ");
        r.append(n);
        r.append("! You've been greeted from Rust!");
        r
    }

    /// The catalog of demos.
    pub fn get_demo_list() -> (r: Vec<DemoInfo>)
        ensures
            demo_views(r@) == demo_catalog(),
    {
        let r = vec![
            DemoService::entry(
                "hello-world",
                "Hello World デモ",
                "ボタンをクリックしてHello Worldメッセージを表示するシンプルなデモ",
                "👋",
            ),
            DemoService::entry(
                "image-viewer",
                "画像ビューア",
                "ファイル選択ダイアログで画像を選択し、表示するデモ",
                "🖼️",
            ),
            DemoService::entry(
                "system-info",
                "システム情報",
                "OS、CPU、メモリ、ディスクなどのシステム情報を表示するデモ",
                "💻",
            ),
            DemoService::entry(
                "file-explorer",
                "ファイルエクスプローラー",
                "ディレクトリの内容を表示し、ファイルやフォルダを閲覧するデモ",
                "📁",
            ),
            DemoService::entry(
                "database-memo",
                "ローカルデータベースデモ",
                "SQLiteを使ったメモアプリ - CRUD操作とデータの永続化",
                "💾",
            ),
            DemoService::entry(
                "realtime-charts",
                "リアルタイムグラフデモ",
                "CPU・メモリ使用率をリアルタイムで線グラフ表示",
                "📊",
            ),
        ];
        assert(demo_views(r@) =~= demo_catalog());
        r
    }

    fn entry(id: &str, title: &str, description: &str, icon: &str) -> (r: DemoInfo)
        ensures
            r@ == demo(id, title, description, icon),
    {
        DemoInfo {
            id: String::from_str(id),
            title: String::from_str(title),
            description: String::from_str(description),
            icon: String::from_str(icon),
        }
    }

    /// The first demo of the catalog whose identifier is `demo_id`.
    pub fn get_demo_info(demo_id: &str) -> (r: Option<DemoInfo>)
        ensures
            r is Some <==> exists|i: int| 0 <= i < demo_catalog().len() && demo_catalog()[i].id == demo_id@,
            r matches Some(d) ==> exists|i: int|
                0 <= i < demo_catalog().len() && demo_catalog()[i].id == demo_id@ && (forall|k: int|
                    0 <= k < i ==> demo_catalog()[k].id != demo_id@) && demo_catalog()[i] == d@,
    {
        let list = DemoService::get_demo_list();
        let wanted = String::from_str(demo_id);
        let mut i: usize = 0;
        while i < list.len()
            invariant
                i <= list.len(),
                demo_views(list@) == demo_catalog(),
                wanted@ == demo_id@,
                forall|k: int| 0 <= k < i ==> demo_catalog()[k].id != demo_id@,
            decreases list.len() - i,
        {
            assert(demo_catalog()[i as int] == list@[i as int]@);
            if list[i].id == wanted {
                return Some(list[i].copy());
            }
            i = i + 1;
        }
        None
    }

    /// Whether the catalog holds a demo with identifier `demo_id`.
    pub fn is_demo_available(demo_id: &str) -> (r: bool)
        ensures
            r == exists|i: int| 0 <= i < demo_catalog().len() && demo_catalog()[i].id == demo_id@,
    {
        DemoService::get_demo_info(demo_id).is_some()
    }
}

} // verus!
