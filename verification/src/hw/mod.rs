pub mod viommu;
