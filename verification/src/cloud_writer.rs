//! where commits go: the cloud, a log around another writer, or nowhere in a dry run

use vstd::prelude::*;

verus! {

/// one object of a commit: the id it is keyed by and its wire JSON
#[derive(Debug, Clone)]
pub struct ChangedObject {
    pub key: String,
    pub body: String,
}

pub trait CloudWriter {
    /// the head index of the history this writer commits against
    spec fn head(&self) -> i64;

    /// the writer can take another commit
    spec fn can_commit(&self) -> bool;

    /// a commit of the changes on `ancestor_index` takes the writer from `self` to `after` and gives `head`
    spec fn commits(
        &self,
        after: &Self,
        changes: Seq<ChangedObject>,
        ancestor_index: Option<i64>,
        head: Result<i64, String>,
    ) -> bool;

    /// commit the changes on `ancestor_index`, or on the head when None, and give the new head index
    fn commit(&mut self, changes: Vec<ChangedObject>, ancestor_index: Option<i64>) -> (head: Result<
        i64,
        String,
    >)
        requires
            old(self).can_commit(),
        ensures
            head matches Ok(index) ==> index == final(self).head(),
            old(self).commits(&*final(self), changes@, ancestor_index, head),
    ;

    fn head_index(&self) -> (index: i64)
        ensures
            index == self.head(),
    ;
}

/// logs every commit of the writer it wraps
pub struct LoggingCloudWriter<W: CloudWriter> {
    pub inner: W,
}

impl<W: CloudWriter> LoggingCloudWriter<W> {
    pub fn new(inner: W) -> (writer: Self)
        ensures
            writer.inner == inner,
    {
        Self { inner }
    }
}

impl<W: CloudWriter> CloudWriter for LoggingCloudWriter<W> {
    open spec fn head(&self) -> i64 {
        self.inner.head()
    }

    open spec fn can_commit(&self) -> bool {
        self.inner.can_commit()
    }

    /// the commit of the writer it wraps, whatever that gives
    open spec fn commits(
        &self,
        after: &Self,
        changes: Seq<ChangedObject>,
        ancestor_index: Option<i64>,
        head: Result<i64, String>,
    ) -> bool {
        self.inner.commits(&after.inner, changes, ancestor_index, head)
    }

    fn commit(&mut self, changes: Vec<ChangedObject>, ancestor_index: Option<i64>) -> (head: Result<
        i64,
        String,
    >) {
        self.inner.commit(changes, ancestor_index)
    }

    fn head_index(&self) -> (index: i64) {
        self.inner.head_index()
    }
}

/// takes every commit without sending it, counting the head up by one
pub struct DryRunCloudWriter {
    pub head_index: i64,
}

impl DryRunCloudWriter {
    pub fn new() -> (writer: Self)
        ensures
            writer.head_index == 0,
    {
        DryRunCloudWriter { head_index: 0 }
    }

    /// commit nothing, one head further
    pub fn dry_commit(&mut self) -> (head: i64)
        requires
            old(self).head_index < i64::MAX,
        ensures
            head == old(self).head_index + 1,
            final(self).head_index == head,
    {
        self.head_index = self.head_index + 1;
        self.head_index
    }
}

impl CloudWriter for DryRunCloudWriter {
    open spec fn head(&self) -> i64 {
        self.head_index
    }

    open spec fn can_commit(&self) -> bool {
        self.head_index < i64::MAX
    }

    /// every commit succeeds, one head further
    open spec fn commits(
        &self,
        after: &Self,
        changes: Seq<ChangedObject>,
        ancestor_index: Option<i64>,
        head: Result<i64, String>,
    ) -> bool {
        &&& after.head_index == self.head_index + 1
        &&& head == Ok::<i64, String>(after.head_index)
    }

    fn commit(&mut self, changes: Vec<ChangedObject>, ancestor_index: Option<i64>) -> (head: Result<
        i64,
        String,
    >) {
        Ok(self.dry_commit())
    }

    fn head_index(&self) -> (index: i64) {
        self.head_index
    }
}

} // verus!
