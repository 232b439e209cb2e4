use vstd::prelude::*;
use crate::level::copy_vec;
use crate::parse::{chars_of, is_separator, lines, pieces, separator, split_trimmed, trim};
use crate::tile::Texture;

verus! {

/// Number of textures.
pub const N_TEXTURES: usize = 16;

/// Position of texture `t` in the list of all textures.
pub open spec fn texture_index(t: Texture) -> int {
    match t {
        Texture::Home => 0,
        Texture::Human => 1,
        Texture::HappyHome => 2,
        Texture::Cake => 3,
        Texture::SadHome => 4,
        Texture::Player => 5,
        Texture::HumanWithGoop => 6,
        Texture::CakeWithGoop => 7,
        Texture::BucketOfGoop => 8,
        Texture::FloorMap => 9,
        Texture::GoopMap => 10,
        Texture::IceMap => 11,
        Texture::VoidMap => 12,
        Texture::Grass => 13,
        Texture::FlowerMap => 14,
        Texture::MossyMap => 15,
    }
}

/// The name of texture `t` in an asset list.
pub open spec fn texture_name(t: Texture) -> Seq<char> {
    match t {
        Texture::Home => "Home"@,
        Texture::Human => "Human"@,
        Texture::HappyHome => "HappyHome"@,
        Texture::Cake => "Cake"@,
        Texture::SadHome => "SadHome"@,
        Texture::Player => "Player"@,
        Texture::HumanWithGoop => "HumanWithGoop"@,
        Texture::CakeWithGoop => "CakeWithGoop"@,
        Texture::BucketOfGoop => "BucketOfGoop"@,
        Texture::FloorMap => "FloorMap"@,
        Texture::GoopMap => "GoopMap"@,
        Texture::IceMap => "IceMap"@,
        Texture::VoidMap => "VoidMap"@,
        Texture::Grass => "Grass"@,
        Texture::FlowerMap => "FlowerMap"@,
        Texture::MossyMap => "MossyMap"@,
    }
}

impl Texture {
    /// Position of the texture in the list of all textures.
    pub fn index(self) -> (r: usize)
        ensures
            r == texture_index(self),
            r < N_TEXTURES,
    {
        match self {
            Texture::Home => 0,
            Texture::Human => 1,
            Texture::HappyHome => 2,
            Texture::Cake => 3,
            Texture::SadHome => 4,
            Texture::Player => 5,
            Texture::HumanWithGoop => 6,
            Texture::CakeWithGoop => 7,
            Texture::BucketOfGoop => 8,
            Texture::FloorMap => 9,
            Texture::GoopMap => 10,
            Texture::IceMap => 11,
            Texture::VoidMap => 12,
            Texture::Grass => 13,
            Texture::FlowerMap => 14,
            Texture::MossyMap => 15,
        }
    }

    /// The texture at position `i` of the list of all textures.
    pub fn from_index(i: usize) -> (r: Texture)
        requires
            i < N_TEXTURES,
        ensures
            texture_index(r) == i,
    {
        if i == 0 {
            Texture::Home
        } else if i == 1 {
            Texture::Human
        } else if i == 2 {
            Texture::HappyHome
        } else if i == 3 {
            Texture::Cake
        } else if i == 4 {
            Texture::SadHome
        } else if i == 5 {
            Texture::Player
        } else if i == 6 {
            Texture::HumanWithGoop
        } else if i == 7 {
            Texture::CakeWithGoop
        } else if i == 8 {
            Texture::BucketOfGoop
        } else if i == 9 {
            Texture::FloorMap
        } else if i == 10 {
            Texture::GoopMap
        } else if i == 11 {
            Texture::IceMap
        } else if i == 12 {
            Texture::VoidMap
        } else if i == 13 {
            Texture::Grass
        } else if i == 14 {
            Texture::FlowerMap
        } else {
            Texture::MossyMap
        }
    }

    /// The name of the texture in an asset list.
    pub fn name(self) -> (r: &'static str)
        ensures
            r@ == texture_name(self),
    {
        match self {
            Texture::Home => "Home",
            Texture::Human => "Human",
            Texture::HappyHome => "HappyHome",
            Texture::Cake => "Cake",
            Texture::SadHome => "SadHome",
            Texture::Player => "Player",
            Texture::HumanWithGoop => "HumanWithGoop",
            Texture::CakeWithGoop => "CakeWithGoop",
            Texture::BucketOfGoop => "BucketOfGoop",
            Texture::FloorMap => "FloorMap",
            Texture::GoopMap => "GoopMap",
            Texture::IceMap => "IceMap",
            Texture::VoidMap => "VoidMap",
            Texture::Grass => "Grass",
            Texture::FlowerMap => "FlowerMap",
            Texture::MossyMap => "MossyMap",
        }
    }
}

/// No two textures share a name.
pub proof fn lemma_texture_names_differ(a: Texture, b: Texture)
    requires
        a != b,
    ensures
        texture_name(a) != texture_name(b),
{
    reveal_strlit("Home");
    reveal_strlit("Human");
    reveal_strlit("HappyHome");
    reveal_strlit("Cake");
    reveal_strlit("SadHome");
    reveal_strlit("Player");
    reveal_strlit("HumanWithGoop");
    reveal_strlit("CakeWithGoop");
    reveal_strlit("BucketOfGoop");
    reveal_strlit("FloorMap");
    reveal_strlit("GoopMap");
    reveal_strlit("IceMap");
    reveal_strlit("VoidMap");
    reveal_strlit("Grass");
    reveal_strlit("FlowerMap");
    reveal_strlit("MossyMap");
    if texture_name(a).len() == texture_name(b).len() {
        if texture_name(a)[0] == texture_name(b)[0] {
            assert(texture_name(a)[1] != texture_name(b)[1] || texture_name(a)[2] != texture_name(b)[2]
                || texture_name(a)[3] != texture_name(b)[3]);
        }
    }
}

/// Whether the characters of `v` are those of `s`.
pub fn same_text(v: &Vec<char>, s: &str) -> (r: bool)
    ensures
        r == (v@ == s@),
{
    let n = s.unicode_len();
    if v.len() != n {
        return false;
    }
    let mut i: usize = 0;
    while i < n
        invariant
            i <= n,
            n == s@.len(),
            v@.len() == n,
            forall|j: int| 0 <= j < i ==> v@[j] == s@[j],
        decreases n - i,
    {
        if v[i] != s.get_char(i) {
            return false;
        }
        i += 1;
    }
    assert(v@ =~= s@);
    true
}

/// The texture called `name`, if any.
pub fn texture_named(name: &Vec<char>) -> (r: Option<Texture>)
    ensures
        match r {
            Some(t) => texture_name(t) == name@,
            None => forall|t: Texture| texture_name(t) != name@,
        },
{
    let mut i: usize = 0;
    while i < N_TEXTURES
        invariant
            i <= N_TEXTURES,
            forall|t: Texture| texture_index(t) < i ==> texture_name(t) != name@,
        decreases N_TEXTURES - i,
    {
        let t = Texture::from_index(i);
        if same_text(name, t.name()) {
            return Some(t);
        }
        proof {
            assert forall|u: Texture| texture_index(u) < i + 1 implies texture_name(u) != name@ by {
                if texture_index(u) == i {
                    assert(u == t);
                }
            }
        }
        i += 1;
    }
    None
}

/// Where the pictures of one texture lie in the list of picture files.
#[derive(Clone, Copy, Debug, PartialEq, Eq, Structural)]
pub struct TextureMetaData {
    pub index: usize,
    pub n_textures: usize,
}

/// What is wrong with a line of an asset list.
#[derive(Clone, Copy, Debug, PartialEq, Eq, Structural)]
pub enum ConfigFault {
    /// The line is not three fields separated by `;`.
    InvalidConfigArgNumber,
    /// The first field names no texture.
    UnknownResourceName,
    /// The texture was given on an earlier line.
    DuplicateResource,
    /// The second field is neither `texture` nor `map`.
    InvalidResourceType,
}

/// A refused asset list: the number of the line (from zero), what is wrong
/// with it, and the field in question (empty when the field count is wrong).
#[derive(Clone, Debug)]
pub struct ConfigError {
    pub line: usize,
    pub fault: ConfigFault,
    pub text: Vec<char>,
}

/// An asset list read: for each texture, in the order of `Texture::index`,
/// where its pictures lie, and the picture files in order.
#[derive(Clone, Debug)]
pub struct TextureConfig {
    pub metadata: Vec<Option<TextureMetaData>>,
    pub files: Vec<Vec<char>>,
}

/// The fields of a line: the pieces between `;`, trimmed.
pub open spec fn line_fields(l: Seq<char>) -> Seq<Seq<char>> {
    pieces(l, ';').map_values(|p: Seq<char>| trim(p))
}

/// The texture called `name` (meaningful when there is one).
pub open spec fn named(name: Seq<char>) -> Texture {
    choose|t: Texture| texture_name(t) == name
}

/// What is wrong with line `l`, given what earlier lines declared.
pub open spec fn line_fault(meta: Seq<Option<TextureMetaData>>, l: Seq<char>) -> Option<ConfigFault> {
    let f = line_fields(l);
    if separator(l) {
        None
    } else if f.len() != 3 {
        Some(ConfigFault::InvalidConfigArgNumber)
    } else if forall|t: Texture| texture_name(t) != f[0] {
        Some(ConfigFault::UnknownResourceName)
    } else if meta[texture_index(named(f[0]))] is Some {
        Some(ConfigFault::DuplicateResource)
    } else if f[1] != "texture"@ && f[1] != "map"@ {
        Some(ConfigFault::InvalidResourceType)
    } else {
        None
    }
}

/// The field that a fault of line `l` is about.
pub open spec fn fault_text(l: Seq<char>, fault: ConfigFault) -> Seq<char> {
    match fault {
        ConfigFault::InvalidConfigArgNumber => Seq::empty(),
        ConfigFault::InvalidResourceType => line_fields(l)[1],
        _ => line_fields(l)[0],
    }
}

/// The digit for `k`, below ten.
pub open spec fn digit(k: int) -> char {
    if k == 0 {
        '0'
    } else if k == 1 {
        '1'
    } else if k == 2 {
        '2'
    } else if k == 3 {
        '3'
    } else if k == 4 {
        '4'
    } else if k == 5 {
        '5'
    } else if k == 6 {
        '6'
    } else if k == 7 {
        '7'
    } else if k == 8 {
        '8'
    } else {
        '9'
    }
}

/// Picture `k` of a tilemap whose files start with `path`.
pub open spec fn frame_file(path: Seq<char>, k: int) -> Seq<char> {
    path + seq![digit(k), '.', 'p', 'n', 'g']
}

/// The state after a correct line `l`: a single texture takes the next
/// file; a tilemap takes the next eight, numbered from 0.
pub open spec fn apply_line(
    meta: Seq<Option<TextureMetaData>>,
    files: Seq<Seq<char>>,
    l: Seq<char>,
) -> (Seq<Option<TextureMetaData>>, Seq<Seq<char>>) {
    let f = line_fields(l);
    if separator(l) {
        (meta, files)
    } else {
        let i = texture_index(named(f[0]));
        if f[1] == "texture"@ {
            (
                meta.update(i, Some(TextureMetaData { index: files.len() as usize, n_textures: 1 })),
                files.push(f[2]),
            )
        } else {
            (
                meta.update(i, Some(TextureMetaData { index: files.len() as usize, n_textures: 8 })),
                files + Seq::new(8, |k: int| frame_file(f[2], k)),
            )
        }
    }
}

/// The state after the first `n` lines of `ls`, read as correct.
pub open spec fn run_lines(ls: Seq<Seq<char>>, n: nat) -> (Seq<Option<TextureMetaData>>, Seq<Seq<char>>)
    decreases n,
{
    if n == 0 || n > ls.len() {
        (Seq::new(N_TEXTURES as nat, |i: int| None::<TextureMetaData>), Seq::empty())
    } else {
        let st = run_lines(ls, (n - 1) as nat);
        apply_line(st.0, st.1, ls[n - 1])
    }
}

/// Whether the first `n` lines of `ls` are all correct.
pub open spec fn lines_ok(ls: Seq<Seq<char>>, n: int) -> bool {
    forall|k: int| 0 <= k < n ==> line_fault(run_lines(ls, k as nat).0, #[trigger] ls[k]) is None
}

/// The asset-list lines of `s`, trimmed.
pub open spec fn config_lines(s: Seq<char>) -> Seq<Seq<char>> {
    lines(s).map_values(|l: Seq<char>| trim(l))
}

/// The name of picture `k` of a tilemap whose files start with `path`.
pub fn frame_file_name(path: &Vec<char>, k: usize) -> (r: Vec<char>)
    requires
        k < 10,
    ensures
        r@ == frame_file(path@, k as int),
{
    let mut r = copy_vec(path);
    let d = if k == 0 {
        '0'
    } else if k == 1 {
        '1'
    } else if k == 2 {
        '2'
    } else if k == 3 {
        '3'
    } else if k == 4 {
        '4'
    } else if k == 5 {
        '5'
    } else if k == 6 {
        '6'
    } else if k == 7 {
        '7'
    } else if k == 8 {
        '8'
    } else {
        '9'
    };
    r.push(d);
    r.push('.');
    r.push('p');
    r.push('n');
    r.push('g');
    assert(r@ =~= frame_file(path@, k as int));
    r
}

/// Reads one line `l`, number `n`, of an asset list.
fn read_config_line(
    l: &Vec<char>,
    n: usize,
    metadata: &mut Vec<Option<TextureMetaData>>,
    files: &mut Vec<Vec<char>>,
) -> (r: Result<(), ConfigError>)
    requires
        old(metadata)@.len() == N_TEXTURES,
    ensures
        final(metadata)@.len() == N_TEXTURES,
        match r {
            Ok(_) => line_fault(old(metadata)@, l@) is None && (final(metadata)@, final(files)@.map_values(
                |f: Vec<char>| f@,
            )) == apply_line(old(metadata)@, old(files)@.map_values(|f: Vec<char>| f@), l@),
            Err(e) => line_fault(old(metadata)@, l@) == Some(e.fault) && e.line == n && e.text@
                == fault_text(l@, e.fault),
        },
{
    let ghost fv = files@.map_values(|f: Vec<char>| f@);
    if is_separator(l) {
        return Ok(());
    }
    let fields = split_trimmed(l, ';');
    proof {
        assert(fields@.map_values(|f: Vec<char>| f@) =~= line_fields(l@));
    }
    if fields.len() != 3 {
        return Err(ConfigError { line: n, fault: ConfigFault::InvalidConfigArgNumber, text: Vec::new() });
    }
    let texture = match texture_named(&fields[0]) {
        Some(t) => t,
        None => {
            return Err(
                ConfigError {
                    line: n,
                    fault: ConfigFault::UnknownResourceName,
                    text: copy_vec(&fields[0]),
                },
            );
        },
    };
    proof {
        assert(texture_name(texture) == line_fields(l@)[0]);
        let c = named(line_fields(l@)[0]);
        assert(texture_name(c) == line_fields(l@)[0]);
        if c != texture {
            lemma_texture_names_differ(c, texture);
        }
    }
    let i = texture.index();
    if metadata[i].is_some() {
        return Err(
            ConfigError { line: n, fault: ConfigFault::DuplicateResource, text: copy_vec(&fields[0]) },
        );
    }
    if same_text(&fields[1], "texture") {
        metadata.set(i, Some(TextureMetaData { index: files.len(), n_textures: 1 }));
        files.push(copy_vec(&fields[2]));
        proof {
            assert(files@.map_values(|f: Vec<char>| f@) =~= fv.push(line_fields(l@)[2]));
        }
        Ok(())
    } else if same_text(&fields[1], "map") {
        metadata.set(i, Some(TextureMetaData { index: files.len(), n_textures: 8 }));
        let mut k: usize = 0;
        while k < 8
            invariant
                k <= 8,
                fields@.len() == 3,
                files@.map_values(|f: Vec<char>| f@) == fv + Seq::new(
                    k as nat,
                    |j: int| frame_file(fields@[2]@, j),
                ),
            decreases 8 - k,
        {
            let f = frame_file_name(&fields[2], k);
            let ghost before = files@.map_values(|f: Vec<char>| f@);
            let ghost fr = f@;
            files.push(f);
            proof {
                assert(files@.map_values(|f: Vec<char>| f@) =~= before.push(fr));
                assert(fv + Seq::new((k + 1) as nat, |j: int| frame_file(fields@[2]@, j)) =~= (fv
                    + Seq::new(k as nat, |j: int| frame_file(fields@[2]@, j))).push(fr));
            }
            k += 1;
        }
        Ok(())
    } else {
        Err(ConfigError { line: n, fault: ConfigFault::InvalidResourceType, text: copy_vec(&fields[1]) })
    }
}

/// Reads an asset list: one texture per line as `name; kind; path`, where
/// kind `texture` names one picture file and kind `map` eight, `path`
/// followed by `0.png` to `7.png`. Empty lines and lines starting with `//`
/// are skipped. Stops at the first faulty line.
pub fn read_texture_config(contents: &str) -> (r: Result<TextureConfig, ConfigError>)
    ensures
        ({
            let ls = config_lines(contents@);
            &&& (r is Ok) == lines_ok(ls, ls.len() as int)
            &&& match r {
                Ok(c) => (c.metadata@, c.files@.map_values(|f: Vec<char>| f@)) == run_lines(
                    ls,
                    ls.len(),
                ),
                Err(e) => e.line < ls.len() && lines_ok(ls, e.line as int) && line_fault(
                    run_lines(ls, e.line as nat).0,
                    ls[e.line as int],
                ) == Some(e.fault) && e.text@ == fault_text(ls[e.line as int], e.fault),
            }
        }),
{
    let chars = chars_of(contents);
    let ls = split_trimmed(&chars, '\n');
    let ghost lv = config_lines(contents@);
    proof {
        assert(ls@.map_values(|l: Vec<char>| l@) =~= lv);
    }
    let mut metadata: Vec<Option<TextureMetaData>> = Vec::new();
    let mut i: usize = 0;
    while i < N_TEXTURES
        invariant
            i <= N_TEXTURES,
            metadata@ =~= Seq::new(i as nat, |j: int| None::<TextureMetaData>),
        decreases N_TEXTURES - i,
    {
        metadata.push(None);
        i += 1;
    }
    let mut files: Vec<Vec<char>> = Vec::new();
    let mut n: usize = 0;
    proof {
        assert(files@.map_values(|f: Vec<char>| f@) =~= Seq::<Seq<char>>::empty());
    }
    while n < ls.len()
        invariant
            n <= ls@.len(),
            lv == config_lines(contents@),
            lv.len() == ls@.len(),
            forall|k: int| 0 <= k < ls@.len() ==> (#[trigger] ls@[k])@ == lv[k],
            metadata@.len() == N_TEXTURES,
            lines_ok(lv, n as int),
            (metadata@, files@.map_values(|f: Vec<char>| f@)) == run_lines(lv, n as nat),
        decreases ls@.len() - n,
    {
        assert(ls@[n as int]@ == lv[n as int]);
        match read_config_line(&ls[n], n, &mut metadata, &mut files) {
            Ok(()) => {},
            Err(e) => {
                return Err(e);
            },
        }
        n += 1;
        proof {
            assert forall|k: int| 0 <= k < n implies line_fault(run_lines(lv, k as nat).0, #[trigger] lv[k]) is None by {
                if k < n - 1 {
                    assert(lines_ok(lv, (n - 1) as int));
                }
            }
        }
    }
    Ok(TextureConfig { metadata, files })
}

/// The default place of a texture that an asset list leaves out: the first
/// picture.
pub open spec fn or_first(m: Option<TextureMetaData>) -> TextureMetaData {
    match m {
        Some(m) => m,
        None => TextureMetaData { index: 0, n_textures: 1 },
    }
}

/// Every texture's place, with the first picture for those left out.
pub fn complete_metadata(metadata: &Vec<Option<TextureMetaData>>) -> (r: Vec<TextureMetaData>)
    ensures
        r@ == metadata@.map_values(|m: Option<TextureMetaData>| or_first(m)),
{
    let mut r: Vec<TextureMetaData> = Vec::new();
    let mut i: usize = 0;
    while i < metadata.len()
        invariant
            i <= metadata@.len(),
            r@ =~= metadata@.subrange(0, i as int).map_values(|m: Option<TextureMetaData>| or_first(m)),
        decreases metadata@.len() - i,
    {
        let m = match metadata[i] {
            Some(m) => m,
            None => TextureMetaData { index: 0, n_textures: 1 },
        };
        r.push(m);
        i += 1;
    }
    assert(metadata@.subrange(0, i as int) =~= metadata@);
    r
}

/// The layer of the picture array that draws texture `m` when it is a
/// tilemap, for a corner drawn as picture `frame` (see `tilemap_frame`);
/// a single texture has one picture for all corners.
pub fn tilemap_layer(m: TextureMetaData, frame: u32) -> (r: usize)
    requires
        frame < 8,
        m.index + 8 <= usize::MAX,
    ensures
        r == if m.n_textures >= 8 {
            m.index + frame
        } else {
            m.index as int
        },
{
    if m.n_textures >= 8 {
        m.index + frame as usize
    } else {
        m.index
    }
}

} // verus!
