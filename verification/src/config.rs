//! Render options of a scatter chart, with their defaults and a builder.

use vstd::prelude::*;

verus! {

/// Caption of a chart when none is given.
pub const CAPTION: &'static str = "fast-umap";

/// Output path of a chart when none is given.
pub const PATH: &'static str = "plot.png";

/// Width and height of a chart, in pixels, when none is given.
pub const SIDE: u32 = 1000;

/// Options of one render: caption, output path and canvas size in pixels.
#[derive(Debug, Clone, PartialEq, Eq)]
pub struct ChartConfig {
    pub caption: String,
    pub path: String,
    pub width: u32,
    pub height: u32,
}

/// What a `ChartConfig` holds, with its texts as character sequences.
pub struct ChartConfigModel {
    pub caption: Seq<char>,
    pub path: Seq<char>,
    pub width: u32,
    pub height: u32,
}

impl ChartConfigModel {
    /// The options used when the caller gives none.
    pub open spec fn defaults() -> ChartConfigModel {
        ChartConfigModel { caption: CAPTION@, path: PATH@, width: SIDE, height: SIDE }
    }
}

impl DeepView for ChartConfig {
    type V = ChartConfigModel;

    open spec fn deep_view(&self) -> ChartConfigModel {
        ChartConfigModel {
            caption: self.caption@,
            path: self.path@,
            width: self.width,
            height: self.height,
        }
    }
}

impl ChartConfig {
    /// A builder that starts from the defaults, each of them set explicitly.
    pub fn builder() -> (b: ChartConfigBuilder)
        ensures
            b.deep_view() == (ChartConfigBuilderModel {
                caption: Some(CAPTION@),
                path: Some(PATH@),
                width: Some(SIDE),
                height: Some(SIDE),
            }),
    {
        ChartConfigBuilder {
            caption: Some(CAPTION.to_owned()),
            path: Some(PATH.to_owned()),
            width: Some(SIDE),
            height: Some(SIDE),
        }
    }
}

impl Default for ChartConfig {
    /// The default options: the default caption and path on a square canvas.
    fn default() -> (c: ChartConfig)
        ensures
            c.deep_view() == ChartConfigModel::defaults(),
    {
        ChartConfig { caption: CAPTION.to_owned(), path: PATH.to_owned(), width: SIDE, height: SIDE }
    }
}

/// Collects options one by one; what is left unset falls back to the default.
pub struct ChartConfigBuilder {
    caption: Option<String>,
    path: Option<String>,
    width: Option<u32>,
    height: Option<u32>,
}

/// What a `ChartConfigBuilder` holds: for each option, the value set so far.
pub struct ChartConfigBuilderModel {
    pub caption: Option<Seq<char>>,
    pub path: Option<Seq<char>>,
    pub width: Option<u32>,
    pub height: Option<u32>,
}

impl ChartConfigBuilderModel {
    /// The options that `build` yields: each value set, else its default.
    pub open spec fn built(self) -> ChartConfigModel {
        ChartConfigModel {
            caption: match self.caption {
                Some(c) => c,
                None => CAPTION@,
            },
            path: match self.path {
                Some(p) => p,
                None => PATH@,
            },
            width: match self.width {
                Some(w) => w,
                None => SIDE,
            },
            height: match self.height {
                Some(h) => h,
                None => SIDE,
            },
        }
    }
}

impl DeepView for ChartConfigBuilder {
    type V = ChartConfigBuilderModel;

    closed spec fn deep_view(&self) -> ChartConfigBuilderModel {
        ChartConfigBuilderModel {
            caption: match self.caption {
                Some(c) => Some(c@),
                None => None,
            },
            path: match self.path {
                Some(p) => Some(p@),
                None => None,
            },
            width: self.width,
            height: self.height,
        }
    }
}

impl Default for ChartConfigBuilder {
    /// A builder with the default caption and path set, and no size yet.
    fn default() -> (b: ChartConfigBuilder)
        ensures
            b.deep_view() == (ChartConfigBuilderModel {
                caption: Some(CAPTION@),
                path: Some(PATH@),
                width: None,
                height: None,
            }),
    {
        ChartConfigBuilder {
            caption: Some(CAPTION.to_owned()),
            path: Some(PATH.to_owned()),
            width: None,
            height: None,
        }
    }
}

impl ChartConfigBuilder {
    /// Sets the caption.
    pub fn caption(self, caption: &str) -> (b: ChartConfigBuilder)
        ensures
            b.deep_view() == (ChartConfigBuilderModel {
                caption: Some(caption@),
                ..self.deep_view()
            }),
    {
        let mut b = self;
        b.caption = Some(caption.to_owned());
        b
    }

    /// Sets the path the chart is written to.
    pub fn path(self, path: &str) -> (b: ChartConfigBuilder)
        ensures
            b.deep_view() == (ChartConfigBuilderModel { path: Some(path@), ..self.deep_view() }),
    {
        let mut b = self;
        b.path = Some(path.to_owned());
        b
    }

    /// Sets the width in pixels.
    pub fn width(self, width: u32) -> (b: ChartConfigBuilder)
        ensures
            b.deep_view() == (ChartConfigBuilderModel { width: Some(width), ..self.deep_view() }),
    {
        let mut b = self;
        b.width = Some(width);
        b
    }

    /// Sets the height in pixels.
    pub fn height(self, height: u32) -> (b: ChartConfigBuilder)
        ensures
            b.deep_view() == (ChartConfigBuilderModel { height: Some(height), ..self.deep_view() }),
    {
        let mut b = self;
        b.height = Some(height);
        b
    }

    /// The options collected, with the default for each one left unset.
    pub fn build(self) -> (c: ChartConfig)
        ensures
            c.deep_view() == self.deep_view().built(),
    {
        let caption = match self.caption {
            Some(c) => c,
            None => CAPTION.to_owned(),
        };
        let path = match self.path {
            Some(p) => p,
            None => PATH.to_owned(),
        };
        let width = match self.width {
            Some(w) => w,
            None => SIDE,
        };
        let height = match self.height {
            Some(h) => h,
            None => SIDE,
        };
        ChartConfig { caption, path, width, height }
    }
}

} // verus!
