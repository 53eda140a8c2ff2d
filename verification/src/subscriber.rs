//! A subscriber and the addresses of its catalog.

use vstd::prelude::*;

verus! {

/// One subscriber: the catalog that is watched for it and the channel that
/// its announcements go to.
#[derive(Clone, Debug, PartialEq, Eq)]
pub struct Instance {
    /// `1` while the subscriber wants announcements, `0` while it is paused.
    pub active_channel: i64,
    pub channel_id: i64,
    /// The address of the catalog, without a slash at its end.
    pub domain: String,
    /// The key that the catalog asks for.
    pub token: String,
    /// The user of the catalog whose library is listed.
    pub user_id: String,
}

/// The path and the fixed part of the query by which a catalog is asked for
/// the whole library of a user.
pub open spec fn listing_query() -> Seq<char> {
    "&Recursive=true&IncludeItemTypes=Movie,Series,Episode,Season,Special&Fields=MediaStreams&collapseBoxSetItems=False"@
}

impl Instance {
    /// The subscriber is not paused.
    pub open spec fn is_active(self) -> bool {
        self.active_channel == 1
    }

    /// The address at which the catalog lists the whole library of the user.
    pub open spec fn listing_address(self) -> Seq<char> {
        self.domain@ + "/Users/"@ + self.user_id@ + "/Items?api_key="@ + self.token@
            + listing_query()
    }

    /// The address of the picture with the identifier `anchor`, with the key
    /// of the catalog in it if `keyed`.
    pub open spec fn image_address(self, anchor: Seq<char>, keyed: bool) -> Seq<char> {
        if keyed {
            self.domain@ + "/Items/"@ + anchor + "/Images/Primary?api_key="@ + self.token@
                + "&Quality=100"@
        } else {
            self.domain@ + "/Items/"@ + anchor + "/Images/Primary?Quality=100"@
        }
    }

    /// Whether the subscriber is not paused.
    pub fn active(&self) -> (active: bool)
        ensures
            active == self.is_active(),
    {
        self.active_channel == 1
    }

    /// Writes the address at which the catalog lists the library of the user.
    pub fn listing_url(&self) -> (url: String)
        ensures
            url@ == self.listing_address(),
    {
        let mut url = self.domain.clone();
        url.append("/Users/");
        url.append(self.user_id.as_str());
        url.append("/Items?api_key=");
        url.append(self.token.as_str());
        url.append(
            "&Recursive=true&IncludeItemTypes=Movie,Series,Episode,Season,Special&Fields=MediaStreams&collapseBoxSetItems=False",
        );
        url
    }

    /// Writes the address of the picture with the identifier `anchor`.
    pub fn image_url(&self, anchor: &String, keyed: bool) -> (url: String)
        ensures
            url@ == self.image_address(anchor@, keyed),
    {
        let mut url = self.domain.clone();
        url.append("/Items/");
        url.append(anchor.as_str());
        if keyed {
            url.append("/Images/Primary?api_key=");
            url.append(self.token.as_str());
            url.append("&Quality=100");
        } else {
            url.append("/Images/Primary?Quality=100");
        }
        url
    }

    /// A copy of the subscriber.
    pub fn duplicate(&self) -> (copy: Instance)
        ensures
            copy == *self,
    {
        Instance {
            active_channel: self.active_channel,
            channel_id: self.channel_id,
            domain: self.domain.clone(),
            token: self.token.clone(),
            user_id: self.user_id.clone(),
        }
    }
}

} // verus!
