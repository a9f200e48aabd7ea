//! Query criteria as written on the command line, and the document root's
//! configuration values.
use crate::text::{chars_of, str_eq, string_of};
use vstd::prelude::*;

verus! {

/// A criterion other than a smart name search.
#[derive(Clone, Debug, PartialEq, Eq)]
pub enum SimpleCriterion {
    /// `/REGEX/`: the base name matches the regex.
    NameRegex(String),
    /// `KEY:VALUE`: the metadata field `KEY` equals `VALUE`.
    MetaEq(String, String),
    /// `KEY:/REGEX/`: the metadata field `KEY` matches the regex.
    MetaRegex(String, String),
}

/// One criterion of a query.
#[derive(Clone, Debug, PartialEq, Eq)]
pub enum Criterion {
    /// A plain word: exact base name first, base name prefix as a fallback.
    NameSmart(String),
    Simple { negate: bool, simple_criterion: SimpleCriterion },
}

/// The text of a simple criterion.
pub enum SimpleCriterionModel {
    NameRegex(Seq<char>),
    MetaEq(Seq<char>, Seq<char>),
    MetaRegex(Seq<char>, Seq<char>),
}

/// The text of a criterion.
pub enum CriterionModel {
    NameSmart(Seq<char>),
    Simple { negate: bool, simple_criterion: SimpleCriterionModel },
}

impl View for SimpleCriterion {
    type V = SimpleCriterionModel;

    open spec fn view(&self) -> SimpleCriterionModel {
        match self {
            SimpleCriterion::NameRegex(r) => SimpleCriterionModel::NameRegex(r@),
            SimpleCriterion::MetaEq(k, v) => SimpleCriterionModel::MetaEq(k@, v@),
            SimpleCriterion::MetaRegex(k, r) => SimpleCriterionModel::MetaRegex(k@, r@),
        }
    }
}

impl View for Criterion {
    type V = CriterionModel;

    open spec fn view(&self) -> CriterionModel {
        match self {
            Criterion::NameSmart(s) => CriterionModel::NameSmart(s@),
            Criterion::Simple { negate, simple_criterion } => CriterionModel::Simple {
                negate: *negate,
                simple_criterion: simple_criterion@,
            },
        }
    }
}

/// Why a criterion was rejected.
#[derive(Clone, Copy, Debug, PartialEq, Eq, Structural)]
pub enum CriterionError {
    /// `=EXPRESSION` is not supported.
    ExpressionSyntax,
    /// `KEY:<VALUE` and the other comparisons are not supported.
    ComparisonSyntax,
    /// A smart name search cannot be negated.
    NegatedSmartName,
}

impl CriterionError {
    /// A message for the user.
    pub fn message(&self) -> (r: &'static str)
        ensures
            match self {
                CriterionError::ExpressionSyntax => r@ == "`=EXPRESSION` syntax is not implemented"@,
                CriterionError::ComparisonSyntax => r@ == "Unimplemented syntax"@,
                CriterionError::NegatedSmartName => r@
                    == "Smart name search cannot be used with negation"@,
            },
    {
        match self {
            CriterionError::ExpressionSyntax => "`=EXPRESSION` syntax is not implemented",
            CriterionError::ComparisonSyntax => "Unimplemented syntax",
            CriterionError::NegatedSmartName => "Smart name search cannot be used with negation",
        }
    }
}

/// `t` is wrapped in slashes: `/.../`.
pub open spec fn slashed(t: Seq<char>) -> bool {
    t.len() >= 2 && t[0] == '/' && t[t.len() - 1] == '/'
}

/// What stands between the slashes.
pub open spec fn unslashed(t: Seq<char>) -> Seq<char> {
    t.subrange(1, t.len() - 1)
}

/// `i` is the index of the first `:` in `t`.
pub open spec fn first_colon(t: Seq<char>, i: int) -> bool {
    &&& 0 <= i < t.len()
    &&& t[i] == ':'
    &&& forall|j: int| 0 <= j < i ==> #[trigger] t[j] != ':'
}

/// `t` holds a `:`.
pub open spec fn has_colon(t: Seq<char>) -> bool {
    exists|i: int| 0 <= i < t.len() && #[trigger] t[i] == ':'
}

/// What a criterion token means. After an optional leading `!`: `/REGEX/`
/// is a name regex; a leading `=` is refused; otherwise the first `:` splits
/// a key from a value, where a value that starts with `<` or `>` is refused
/// and `/REGEX/` is a metadata regex; a token without `:` is a smart name,
/// which cannot be negated.
pub open spec fn parse_criterion(s: Seq<char>) -> Result<CriterionModel, CriterionError> {
    let negate = s.len() > 0 && s[0] == '!';
    let t = if negate {
        s.subrange(1, s.len() as int)
    } else {
        s
    };
    if slashed(t) {
        Ok(
            CriterionModel::Simple {
                negate,
                simple_criterion: SimpleCriterionModel::NameRegex(unslashed(t)),
            },
        )
    } else if t.len() > 0 && t[0] == '=' {
        Err(CriterionError::ExpressionSyntax)
    } else if has_colon(t) {
        let i = choose|i: int| first_colon(t, i);
        let key = t.subrange(0, i);
        let value = t.subrange(i + 1, t.len() as int);
        if value.len() > 0 && (value[0] == '<' || value[0] == '>') {
            Err(CriterionError::ComparisonSyntax)
        } else if slashed(value) {
            Ok(
                CriterionModel::Simple {
                    negate,
                    simple_criterion: SimpleCriterionModel::MetaRegex(key, unslashed(value)),
                },
            )
        } else {
            Ok(
                CriterionModel::Simple {
                    negate,
                    simple_criterion: SimpleCriterionModel::MetaEq(key, value),
                },
            )
        }
    } else if negate {
        Err(CriterionError::NegatedSmartName)
    } else {
        Ok(CriterionModel::NameSmart(t))
    }
}

proof fn lemma_first_colon_unique(t: Seq<char>, i: int)
    requires
        first_colon(t, i),
    ensures
        (choose|j: int| first_colon(t, j)) == i,
{
    let c = choose|j: int| first_colon(t, j);
    assert(first_colon(t, c));
    if c < i {
        assert(t[c] != ':');
    } else if i < c {
        assert(t[i] != ':');
    }
}

impl core::str::FromStr for Criterion {
    type Err = CriterionError;

    fn from_str(s: &str) -> (r: Result<Criterion, CriterionError>)
        ensures
            match r {
                Ok(c) => parse_criterion(s@) == Ok::<CriterionModel, CriterionError>(c@),
                Err(e) => parse_criterion(s@) == Err::<CriterionModel, CriterionError>(e),
            },
    {
        Criterion::parse(s)
    }
}

/// `cs[from..to]` is wrapped in slashes.
fn is_slashed(cs: &Vec<char>, from: usize, to: usize) -> (r: bool)
    requires
        from <= to <= cs@.len(),
    ensures
        r == slashed(cs@.subrange(from as int, to as int)),
{
    to - from >= 2 && cs[from] == '/' && cs[to - 1] == '/'
}

impl Criterion {
    /// Parses one criterion token.
    pub fn parse(s: &str) -> (r: Result<Criterion, CriterionError>)
        ensures
            match r {
                Ok(c) => parse_criterion(s@) == Ok::<CriterionModel, CriterionError>(c@),
                Err(e) => parse_criterion(s@) == Err::<CriterionModel, CriterionError>(e),
            },
    {
        let cs = chars_of(s);
        let n = cs.len();
        let negate = n > 0 && cs[0] == '!';
        let start: usize = if negate {
            1
        } else {
            0
        };
        let ghost t = cs@.subrange(start as int, n as int);
        proof {
            if !negate {
                assert(t =~= s@);
            }
        }
        if is_slashed(&cs, start, n) {
            let inner = string_of(cs.as_slice(), start + 1, n - 1);
            assert(inner@ =~= unslashed(t));
            return Ok(
                Criterion::Simple { negate, simple_criterion: SimpleCriterion::NameRegex(inner) },
            );
        }
        if start < n && cs[start] == '=' {
            return Err(CriterionError::ExpressionSyntax);
        }
        let mut i = start;
        while i < n
            invariant
                start <= i <= n == cs@.len(),
                t == cs@.subrange(start as int, n as int),
                forall|j: int| start <= j < i ==> cs@[j] != ':',
            ensures
                start <= i <= n,
                forall|j: int| start <= j < i ==> cs@[j] != ':',
                i < n ==> cs@[i as int] == ':',
            decreases n - i,
        {
            if cs[i] == ':' {
                break ;
            }
            i = i + 1;
        }
        if i < n {
            let ghost ci = i - start;
            proof {
                assert(t[ci] == ':');
                assert(first_colon(t, ci));
                lemma_first_colon_unique(t, ci);
            }
            let key = string_of(cs.as_slice(), start, i);
            assert(key@ =~= t.subrange(0, ci));
            let ghost value = t.subrange(ci + 1, t.len() as int);
            assert(value =~= cs@.subrange(i + 1, n as int));
            if i + 1 < n && (cs[i + 1] == '<' || cs[i + 1] == '>') {
                return Err(CriterionError::ComparisonSyntax);
            }
            if is_slashed(&cs, i + 1, n) {
                let pattern = string_of(cs.as_slice(), i + 2, n - 1);
                assert(pattern@ =~= unslashed(value));
                return Ok(
                    Criterion::Simple {
                        negate,
                        simple_criterion: SimpleCriterion::MetaRegex(key, pattern),
                    },
                );
            }
            let v = string_of(cs.as_slice(), i + 1, n);
            return Ok(
                Criterion::Simple { negate, simple_criterion: SimpleCriterion::MetaEq(key, v) },
            );
        }
        proof {
            assert forall|j: int| 0 <= j < t.len() implies #[trigger] t[j] != ':' by {
                assert(t[j] == cs@[start + j]);
            }
        }
        if negate {
            return Err(CriterionError::NegatedSmartName);
        }
        let name = string_of(cs.as_slice(), start, n);
        Ok(Criterion::NameSmart(name))
    }
}

/// The query given on the command line: a preset filter name and a
/// conjunction of criteria.
#[derive(Debug)]
pub struct Query {
    pub preset: String,
    pub criteria: Vec<Criterion>,
}

/// The configuration of a document root.
#[derive(Debug)]
pub struct Cfg {
    /// Modifies the document root.
    pub root: String,
    /// Allows metadata to be rewritten. Currently unused.
    pub writable: bool,
    /// The patterns of file names to recognize as documents, relative to the
    /// document root, in gitignore syntax.
    pub files: Vec<String>,
    /// Text styles for the listing.
    pub theme: ThemeCfg,
}

/// Text styles for the listing.
#[derive(Debug)]
pub struct ThemeCfg {
    /// The style of each tag that has one of its own.
    pub tags: Vec<(String, StyleCfg)>,
    /// The style of every other tag.
    pub tag_default: StyleCfg,
}

/// A text style.
#[derive(Clone, Copy, Debug, PartialEq, Eq, Structural)]
pub struct StyleCfg {
    pub fg: Option<ColorCfg>,
    pub bg: Option<ColorCfg>,
    pub bold: bool,
    pub italic: bool,
}

/// A terminal color.
#[derive(Clone, Copy, Debug, PartialEq, Eq, Structural)]
pub enum ColorCfg {
    Black,
    Red,
    Green,
    Yellow,
    Blue,
    Purple,
    Cyan,
    White,
    /// One of the 256 indexed colors.
    Fixed(u8),
    Rgb(u8, u8, u8),
}

/// The file patterns used when the configuration names none.
pub open spec fn default_files() -> Seq<Seq<char>> {
    seq!["*.md"@, "*.mdown"@, "!*.swp"@, "!.git/"@, "!.svn/"@]
}

/// Markdown files, without editor swap files and version control
/// directories.
pub fn files_default() -> (r: Vec<String>)
    ensures
        r@.map_values(|s: String| s@) == default_files(),
{
    let mut r: Vec<String> = Vec::new();
    r.push("*.md".to_owned());
    r.push("*.mdown".to_owned());
    r.push("!*.swp".to_owned());
    r.push("!.git/".to_owned());
    r.push("!.svn/".to_owned());
    assert(r@.map_values(|s: String| s@) =~= default_files());
    r
}

/// Green on dark gray, neither bold nor italic.
pub open spec fn tag_default_spec() -> StyleCfg {
    StyleCfg {
        fg: Some(ColorCfg::Green),
        bg: Some(ColorCfg::Rgb(64, 64, 64)),
        bold: false,
        italic: false,
    }
}

/// The style of a tag that has none of its own.
pub fn default_tag_default() -> (r: StyleCfg)
    ensures
        r == tag_default_spec(),
{
    StyleCfg {
        fg: Some(ColorCfg::Green),
        bg: Some(ColorCfg::Rgb(64, 64, 64)),
        bold: false,
        italic: false,
    }
}

impl Default for ThemeCfg {
    fn default() -> (r: ThemeCfg)
        ensures
            r.tags@.len() == 0,
            r.tag_default == tag_default_spec(),
    {
        ThemeCfg { tags: Vec::new(), tag_default: default_tag_default() }
    }
}

/// The style of `tag`: that of its first entry in `tags`, or the default.
pub open spec fn tag_style_spec(tags: Seq<(String, StyleCfg)>, default: StyleCfg, tag: Seq<char>) -> StyleCfg {
    if exists|i: int| 0 <= i < tags.len() && #[trigger] tags[i].0@ == tag {
        tags[choose|i: int|
            0 <= i < tags.len() && tags[i].0@ == tag && forall|j: int|
                0 <= j < i ==> #[trigger] tags[j].0@ != tag].1
    } else {
        default
    }
}

impl ThemeCfg {
    /// The style to show `tag` in.
    pub fn tag_style(&self, tag: &str) -> (r: StyleCfg)
        ensures
            r == tag_style_spec(self.tags@, self.tag_default, tag@),
    {
        let mut i: usize = 0;
        while i < self.tags.len()
            invariant
                i <= self.tags@.len(),
                forall|j: int| 0 <= j < i ==> #[trigger] self.tags@[j].0@ != tag@,
            decreases self.tags@.len() - i,
        {
            if str_eq(self.tags[i].0.as_str(), tag) {
                proof {
                    let tags = self.tags@;
                    let c = choose|c: int|
                        0 <= c < tags.len() && tags[c].0@ == tag@ && forall|j: int|
                            0 <= j < c ==> #[trigger] tags[j].0@ != tag@;
                    assert(0 <= i < tags.len() && tags[i as int].0@ == tag@ && forall|j: int|
                        0 <= j < i ==> #[trigger] tags[j].0@ != tag@);
                    if c < i {
                        assert(tags[c].0@ != tag@);
                    } else if i < c {
                        assert(tags[i as int].0@ != tag@);
                    }
                }
                return self.tags[i].1;
            }
            i = i + 1;
        }
        self.tag_default
    }
}

/// The value of a hexadecimal digit.
pub open spec fn hex_digit(c: char) -> Option<int> {
    if '0' <= c && c <= '9' {
        Some(c as int - '0' as int)
    } else if 'a' <= c && c <= 'f' {
        Some(c as int - 'a' as int + 10)
    } else if 'A' <= c && c <= 'F' {
        Some(c as int - 'A' as int + 10)
    } else {
        None
    }
}

/// The value of a string of hexadecimal digits.
pub open spec fn hex_value(ds: Seq<char>) -> Option<int>
    decreases ds.len(),
{
    if ds.len() == 0 {
        Some(0)
    } else {
        match (hex_value(ds.drop_last()), hex_digit(ds.last())) {
            (Some(v), Some(d)) => Some(v * 16 + d),
            _ => None,
        }
    }
}

/// A byte written in hexadecimal as u8::from_str_radix reads it: an
/// optional `+`, then at least one digit, and a value below 256.
pub open spec fn hex_byte(s: Seq<char>) -> Option<u8> {
    let ds = if s.len() > 0 && s[0] == '+' {
        s.drop_first()
    } else {
        s
    };
    if ds.len() == 0 {
        None
    } else {
        match hex_value(ds) {
            Some(v) => if v < 256 {
                Some(v as u8)
            } else {
                None
            },
            None => None,
        }
    }
}

fn digit_of(c: char) -> (r: Option<u8>)
    ensures
        match hex_digit(c) {
            Some(d) => r == Some(d as u8),
            None => r is None,
        },
{
    if '0' <= c && c <= '9' {
        Some((c as u32 - '0' as u32) as u8)
    } else if 'a' <= c && c <= 'f' {
        Some((c as u32 - 'a' as u32 + 10) as u8)
    } else if 'A' <= c && c <= 'F' {
        Some((c as u32 - 'A' as u32 + 10) as u8)
    } else {
        None
    }
}

/// Reads `cs[from..to]`, one or two characters, as a hexadecimal byte.
fn parse_hex_byte(cs: &Vec<char>, from: usize, to: usize) -> (r: Option<u8>)
    requires
        from < to <= cs@.len(),
        to - from <= 2,
    ensures
        r == hex_byte(cs@.subrange(from as int, to as int)),
{
    let ghost s = cs@.subrange(from as int, to as int);
    let start = if cs[from] == '+' {
        from + 1
    } else {
        from
    };
    let ghost ds = cs@.subrange(start as int, to as int);
    assert(ds =~= (if s.len() > 0 && s[0] == '+' {
        s.drop_first()
    } else {
        s
    }));
    if start == to {
        return None;
    }
    assert(ds.drop_last().drop_last().len() == 0 || ds.len() == 1);
    if to - start == 1 {
        assert(ds.drop_last().len() == 0);
        assert(hex_value(ds.drop_last()) == Some(0int));
        assert(ds.last() == cs@[start as int]);
        match digit_of(cs[start]) {
            Some(d) => Some(d),
            None => None,
        }
    } else {
        let ghost first = ds.drop_last();
        assert(first.drop_last().len() == 0);
        assert(hex_value(first.drop_last()) == Some(0int));
        assert(first.last() == cs@[start as int]);
        assert(ds.last() == cs@[start + 1]);
        match (digit_of(cs[start]), digit_of(cs[start + 1])) {
            (Some(h), Some(l)) => Some(h * 16 + l),
            _ => None,
        }
    }
}

/// A color written `#RGB` or `#RRGGBB` in ASCII hexadecimal, each digit of
/// the short form standing for two.
pub open spec fn hex_color(s: Seq<char>) -> Option<(u8, u8, u8)> {
    if !(s.len() > 0 && s[0] == '#' && forall|i: int| 0 <= i < s.len() ==> (#[trigger] s[i] as u32) < 128) {
        None
    } else if s.len() == 4 {
        match (hex_byte(s.subrange(1, 2)), hex_byte(s.subrange(2, 3)), hex_byte(s.subrange(3, 4))) {
            (Some(r), Some(g), Some(b)) => Some(((r * 17) as u8, (g * 17) as u8, (b * 17) as u8)),
            _ => None,
        }
    } else if s.len() == 7 {
        match (hex_byte(s.subrange(1, 3)), hex_byte(s.subrange(3, 5)), hex_byte(s.subrange(5, 7))) {
            (Some(r), Some(g), Some(b)) => Some((r, g, b)),
            _ => None,
        }
    } else {
        None
    }
}

/// Reads a color written `#RGB` or `#RRGGBB`.
pub fn parse_hex_color(s: &str) -> (r: Option<[u8; 3]>)
    ensures
        match hex_color(s@) {
            Some((red, green, blue)) => r matches Some(a) && a@ == seq![red, green, blue],
            None => r is None,
        },
{
    let cs = chars_of(s);
    let n = cs.len();
    if n == 0 || cs[0] != '#' {
        return None;
    }
    let mut i: usize = 0;
    while i < n
        invariant
            n == cs@.len(),
            cs@ == s@,
            i <= n,
            forall|j: int| 0 <= j < i ==> (#[trigger] cs@[j] as u32) < 128,
        decreases n - i,
    {
        if cs[i] as u32 >= 128 {
            return None;
        }
        i = i + 1;
    }
    if n == 4 {
        match (parse_hex_byte(&cs, 1, 2), parse_hex_byte(&cs, 2, 3), parse_hex_byte(&cs, 3, 4)) {
            (Some(red), Some(green), Some(blue)) => {
                proof {
                    single_digit_small(cs@.subrange(1, 2));
                    single_digit_small(cs@.subrange(2, 3));
                    single_digit_small(cs@.subrange(3, 4));
                }
                let a = [red * 17, green * 17, blue * 17];
                assert(a@ =~= seq![(red * 17) as u8, (green * 17) as u8, (blue * 17) as u8]);
                Some(a)
            },
            _ => None,
        }
    } else if n == 7 {
        match (parse_hex_byte(&cs, 1, 3), parse_hex_byte(&cs, 3, 5), parse_hex_byte(&cs, 5, 7)) {
            (Some(red), Some(green), Some(blue)) => {
                let a = [red, green, blue];
                assert(a@ =~= seq![red, green, blue]);
                Some(a)
            },
            _ => None,
        }
    } else {
        None
    }
}

/// A one-character byte is a single digit, at most 15.
proof fn single_digit_small(s: Seq<char>)
    requires
        s.len() == 1,
    ensures
        hex_byte(s) matches Some(v) ==> v <= 15,
{
    assert(s.drop_last().len() == 0);
    assert(hex_value(s.drop_last()) == Some(0int));
}

/// The color a configuration string names: one of eight names, or a
/// hexadecimal color.
pub open spec fn color_named(s: Seq<char>) -> Option<ColorCfg> {
    if s == "black"@ {
        Some(ColorCfg::Black)
    } else if s == "red"@ {
        Some(ColorCfg::Red)
    } else if s == "green"@ {
        Some(ColorCfg::Green)
    } else if s == "yellow"@ {
        Some(ColorCfg::Yellow)
    } else if s == "blue"@ {
        Some(ColorCfg::Blue)
    } else if s == "purple"@ {
        Some(ColorCfg::Purple)
    } else if s == "cyan"@ {
        Some(ColorCfg::Cyan)
    } else if s == "white"@ {
        Some(ColorCfg::White)
    } else {
        match hex_color(s) {
            Some((r, g, b)) => Some(ColorCfg::Rgb(r, g, b)),
            None => None,
        }
    }
}

impl ColorCfg {
    /// Reads a color from the configuration; `None` when it is neither a
    /// known name nor a hexadecimal color.
    pub fn parse(s: &str) -> (r: Option<ColorCfg>)
        ensures
            r == color_named(s@),
    {
        if str_eq(s, "black") {
            Some(ColorCfg::Black)
        } else if str_eq(s, "red") {
            Some(ColorCfg::Red)
        } else if str_eq(s, "green") {
            Some(ColorCfg::Green)
        } else if str_eq(s, "yellow") {
            Some(ColorCfg::Yellow)
        } else if str_eq(s, "blue") {
            Some(ColorCfg::Blue)
        } else if str_eq(s, "purple") {
            Some(ColorCfg::Purple)
        } else if str_eq(s, "cyan") {
            Some(ColorCfg::Cyan)
        } else if str_eq(s, "white") {
            Some(ColorCfg::White)
        } else {
            match parse_hex_color(s) {
                Some(a) => {
                    assert(a@ == seq![a[0], a[1], a[2]]);
                    Some(ColorCfg::Rgb(a[0], a[1], a[2]))
                },
                None => None,
            }
        }
    }
}

} // verus!
