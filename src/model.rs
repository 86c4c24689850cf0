use vstd::prelude::*;

verus! {

/// True when the two strings hold the same characters.
pub fn str_eq(a: &str, b: &str) -> (r: bool)
    ensures
        r == (a@ == b@),
{
    let n = a.unicode_len();
    if n != b.unicode_len() {
        return false;
    }
    let mut i: usize = 0;
    while i < n
        invariant
            n == a@.len(),
            n == b@.len(),
            0 <= i <= n,
            a@.subrange(0, i as int) == b@.subrange(0, i as int),
        decreases n - i,
    {
        if a.get_char(i) != b.get_char(i) {
            return false;
        }
        proof {
            assert(a@.subrange(0, i + 1) =~= a@.subrange(0, i as int).push(a@[i as int]));
            assert(b@.subrange(0, i + 1) =~= b@.subrange(0, i as int).push(b@[i as int]));
        }
        i = i + 1;
    }
    proof {
        assert(a@ =~= a@.subrange(0, n as int));
        assert(b@ =~= b@.subrange(0, n as int));
    }
    true
}

/// Character-wise (code point) order of two texts; timestamps in one format
/// compare by it in time order.
pub open spec fn text_le(a: Seq<char>, b: Seq<char>) -> bool
    decreases a.len(),
{
    if a.len() == 0 {
        true
    } else if b.len() == 0 {
        false
    } else if (a[0] as u32) != (b[0] as u32) {
        (a[0] as u32) < (b[0] as u32)
    } else {
        text_le(a.drop_first(), b.drop_first())
    }
}

pub proof fn lemma_text_le_trans(a: Seq<char>, b: Seq<char>, c: Seq<char>)
    requires
        text_le(a, b),
        text_le(b, c),
    ensures
        text_le(a, c),
    decreases a.len(),
{
    if a.len() > 0 && b.len() > 0 && c.len() > 0 && a[0] as u32 == b[0] as u32 && b[0] as u32
        == c[0] as u32 {
        lemma_text_le_trans(a.drop_first(), b.drop_first(), c.drop_first());
    }
}

pub proof fn lemma_text_le_refl(a: Seq<char>)
    ensures
        text_le(a, a),
    decreases a.len(),
{
    if a.len() > 0 {
        lemma_text_le_refl(a.drop_first());
    }
}

pub proof fn lemma_text_le_total(a: Seq<char>, b: Seq<char>)
    ensures
        text_le(a, b) || text_le(b, a),
    decreases a.len(),
{
    if a.len() > 0 && b.len() > 0 && a[0] as u32 == b[0] as u32 {
        lemma_text_le_total(a.drop_first(), b.drop_first());
    }
}

/// Whether `a` comes no later than `b` in character-wise order.
pub fn text_le_exec(a: &str, b: &str) -> (r: bool)
    ensures
        r == text_le(a@, b@),
{
    let n = a.unicode_len();
    let m = b.unicode_len();
    let mut i: usize = 0;
    proof {
        assert(a@.skip(0) =~= a@);
        assert(b@.skip(0) =~= b@);
    }
    while i < n && i < m
        invariant
            n == a@.len(),
            m == b@.len(),
            0 <= i <= n,
            i <= m,
            text_le(a@, b@) == text_le(a@.skip(i as int), b@.skip(i as int)),
        decreases n - i,
    {
        let x = a.get_char(i);
        let y = b.get_char(i);
        if (x as u32) != (y as u32) {
            return (x as u32) < (y as u32);
        }
        proof {
            assert(a@.skip(i as int).drop_first() =~= a@.skip(i + 1));
            assert(b@.skip(i as int).drop_first() =~= b@.skip(i + 1));
        }
        i = i + 1;
    }
    i == n
}

/// Lifecycle state of a job.
#[derive(Clone, Copy, Debug, PartialEq, Eq, Structural)]
pub enum JobStatus {
    Pending,
    Processing,
    Completed,
    Failed,
    Partial,
}

impl JobStatus {
    /// A job still waiting for, or undergoing, generation work.
    pub open spec fn spec_is_active(self) -> bool {
        self == JobStatus::Pending || self == JobStatus::Processing
    }

    pub open spec fn spec_text(self) -> Seq<char> {
        match self {
            JobStatus::Pending => "pending"@,
            JobStatus::Processing => "processing"@,
            JobStatus::Completed => "completed"@,
            JobStatus::Failed => "failed"@,
            JobStatus::Partial => "partial"@,
        }
    }

    pub fn is_active(&self) -> (r: bool)
        ensures
            r == self.spec_is_active(),
    {
        match self {
            JobStatus::Pending | JobStatus::Processing => true,
            _ => false,
        }
    }

    /// The name under which the status is stored.
    pub fn as_text(&self) -> (r: String)
        ensures
            r@ == self.spec_text(),
    {
        match self {
            JobStatus::Pending => String::from_str("pending"),
            JobStatus::Processing => String::from_str("processing"),
            JobStatus::Completed => String::from_str("completed"),
            JobStatus::Failed => String::from_str("failed"),
            JobStatus::Partial => String::from_str("partial"),
        }
    }

    /// Reads a stored status name; unknown names are rejected.
    pub fn parse(s: &str) -> (r: Option<JobStatus>)
        ensures
            r matches Some(x) ==> x.spec_text() == s@,
            r is None ==> forall|x: JobStatus| #[trigger] x.spec_text() != s@,
    {
        if str_eq(s, "pending") {
            Some(JobStatus::Pending)
        } else if str_eq(s, "processing") {
            Some(JobStatus::Processing)
        } else if str_eq(s, "completed") {
            Some(JobStatus::Completed)
        } else if str_eq(s, "failed") {
            Some(JobStatus::Failed)
        } else if str_eq(s, "partial") {
            Some(JobStatus::Partial)
        } else {
            None
        }
    }
}

/// Lifecycle state of a single job item.
#[derive(Clone, Copy, Debug, PartialEq, Eq, Structural)]
pub enum ItemStatus {
    Pending,
    Processing,
    Completed,
    Failed,
}

impl ItemStatus {
    /// One step of an item's lifecycle: pending to processing, then processing
    /// to completed or failed.
    pub open spec fn spec_can_advance_to(self, next: ItemStatus) -> bool {
        (self == ItemStatus::Pending && next == ItemStatus::Processing) || (self
            == ItemStatus::Processing && (next == ItemStatus::Completed || next
            == ItemStatus::Failed))
    }

    pub fn can_advance_to(&self, next: ItemStatus) -> (r: bool)
        ensures
            r == self.spec_can_advance_to(next),
    {
        match (self, next) {
            (ItemStatus::Pending, ItemStatus::Processing) => true,
            (ItemStatus::Processing, ItemStatus::Completed) => true,
            (ItemStatus::Processing, ItemStatus::Failed) => true,
            _ => false,
        }
    }

    pub open spec fn spec_text(self) -> Seq<char> {
        match self {
            ItemStatus::Pending => "pending"@,
            ItemStatus::Processing => "processing"@,
            ItemStatus::Completed => "completed"@,
            ItemStatus::Failed => "failed"@,
        }
    }

    /// The name under which the status is stored.
    pub fn as_text(&self) -> (r: String)
        ensures
            r@ == self.spec_text(),
    {
        match self {
            ItemStatus::Pending => String::from_str("pending"),
            ItemStatus::Processing => String::from_str("processing"),
            ItemStatus::Completed => String::from_str("completed"),
            ItemStatus::Failed => String::from_str("failed"),
        }
    }

    /// Reads a stored status name; unknown names are rejected.
    pub fn parse(s: &str) -> (r: Option<ItemStatus>)
        ensures
            r matches Some(x) ==> x.spec_text() == s@,
            r is None ==> forall|x: ItemStatus| #[trigger] x.spec_text() != s@,
    {
        if str_eq(s, "pending") {
            Some(ItemStatus::Pending)
        } else if str_eq(s, "processing") {
            Some(ItemStatus::Processing)
        } else if str_eq(s, "completed") {
            Some(ItemStatus::Completed)
        } else if str_eq(s, "failed") {
            Some(ItemStatus::Failed)
        } else {
            None
        }
    }
}

/// The kind of generation a job performs.
#[derive(Clone, Copy, Debug, PartialEq, Eq, Structural)]
pub enum JobMode {
    TextToImage,
    ImageToImage,
}

impl JobMode {
    pub open spec fn spec_text(self) -> Seq<char> {
        match self {
            JobMode::TextToImage => "text-to-image"@,
            JobMode::ImageToImage => "image-to-image"@,
        }
    }

    /// The name under which the mode is stored.
    pub fn as_text(&self) -> (r: String)
        ensures
            r@ == self.spec_text(),
    {
        match self {
            JobMode::TextToImage => String::from_str("text-to-image"),
            JobMode::ImageToImage => String::from_str("image-to-image"),
        }
    }

    /// Reads a stored mode name; unknown names are rejected.
    pub fn parse(s: &str) -> (r: Option<JobMode>)
        ensures
            r matches Some(x) ==> x.spec_text() == s@,
            r is None ==> forall|x: JobMode| #[trigger] x.spec_text() != s@,
    {
        if str_eq(s, "text-to-image") {
            Some(JobMode::TextToImage)
        } else if str_eq(s, "image-to-image") {
            Some(JobMode::ImageToImage)
        } else {
            None
        }
    }
}

/// A unit of generation work. The temperature is held in thousandths.
#[derive(Clone, Debug)]
pub struct Job {
    pub id: String,
    pub status: JobStatus,
    pub mode: JobMode,
    pub prompt: String,
    pub output_size: String,
    pub temperature_milli: i64,
    pub aspect_ratio: String,
    pub batch_job_name: Option<String>,
    pub batch_temp_file: Option<String>,
    pub total_items: usize,
    pub completed_items: usize,
    pub failed_items: usize,
    pub created_at: String,
    pub updated_at: String,
}

/// One prompt or one input image of a job.
#[derive(Clone, Debug)]
pub struct JobItem {
    pub id: String,
    pub job_id: String,
    pub input_prompt: Option<String>,
    pub input_image_path: Option<String>,
    pub output_image_path: Option<String>,
    pub status: ItemStatus,
    pub error: Option<String>,
    pub created_at: String,
    pub updated_at: String,
}

#[derive(Clone, Debug)]
pub struct JobWithItems {
    pub job: Job,
    pub items: Vec<JobItem>,
}

/// A text-to-image submission: one item per prompt.
#[derive(Clone, Debug)]
pub struct CreateT2IJobRequest {
    pub prompts: Vec<String>,
    pub output_size: String,
    pub temperature_milli: i64,
    pub aspect_ratio: String,
}

/// An image-to-image submission: one item per input image, sharing one prompt.
#[derive(Clone, Debug)]
pub struct CreateI2IJobRequest {
    pub prompt: String,
    pub image_paths: Vec<String>,
    pub output_size: String,
    pub temperature_milli: i64,
    pub aspect_ratio: String,
}

/// Whether an API key is stored, and its masked display form.
#[derive(Clone, Debug)]
pub struct ConfigStatus {
    pub has_key: bool,
    pub masked: Option<String>,
}

/// A file copied into the managed uploads area.
#[derive(Clone, Debug)]
pub struct UploadedFile {
    pub id: String,
    pub path: String,
    pub name: String,
}

impl Job {
    /// Counters never exceed the number of items.
    pub open spec fn counters_ok(&self) -> bool {
        self.completed_items + self.failed_items <= self.total_items
    }
}

} // verus!
